use vstd::prelude::*;

use crate::models::{LinkView, ShortenedURL};
use crate::text::chars_of;

verus! {

/// Code-point order on text, shorter prefix first: the order in which the store
/// sorts text clustering columns.
pub open spec fn text_less(a: Seq<char>, b: Seq<char>) -> bool
    decreases a.len(),
{
    if a.len() == 0 {
        b.len() > 0
    } else if b.len() == 0 {
        false
    } else if a[0] != b[0] {
        (a[0] as int) < (b[0] as int)
    } else {
        text_less(a.drop_first(), b.drop_first())
    }
}

proof fn lemma_text_less_total(a: Seq<char>, b: Seq<char>)
    ensures
        a != b ==> text_less(a, b) || text_less(b, a),
    decreases a.len(),
{
    if a.len() > 0 && b.len() > 0 && a[0] == b[0] {
        lemma_text_less_total(a.drop_first(), b.drop_first());
        if a.drop_first() == b.drop_first() {
            assert(a =~= seq![a[0]] + a.drop_first());
            assert(b =~= seq![b[0]] + b.drop_first());
        }
    } else if a.len() > 0 && b.len() > 0 {
        assert((a[0] as int) != (b[0] as int));
    } else if a.len() == 0 && b.len() == 0 {
        assert(a =~= b);
    }
}

/// Decides `text_less`.
fn text_lt(a: &str, b: &str) -> (r: bool)
    ensures
        r == text_less(a@, b@),
{
    let x = chars_of(a);
    let y = chars_of(b);
    let mut i: usize = 0;
    assert(x@.subrange(0, x@.len() as int) =~= a@);
    assert(y@.subrange(0, y@.len() as int) =~= b@);
    while i < x.len() && i < y.len()
        invariant
            x@ == a@,
            y@ == b@,
            i <= x@.len(),
            i <= y@.len(),
            text_less(a@, b@) == text_less(x@.subrange(i as int, x@.len() as int), y@.subrange(i as int, y@.len() as int)),
        decreases x@.len() - i,
    {
        let c = x[i];
        let d = y[i];
        let ghost xs = x@.subrange(i as int, x@.len() as int);
        let ghost ys = y@.subrange(i as int, y@.len() as int);
        assert(xs[0] == c && ys[0] == d);
        if c != d {
            return c < d;
        }
        assert(xs.drop_first() =~= x@.subrange(i + 1, x@.len() as int));
        assert(ys.drop_first() =~= y@.subrange(i + 1, y@.len() as int));
        i = i + 1;
    }
    i < y.len()
}

/// Clustering order of the index: newer first, then by identifier.
pub open spec fn index_before(a: LinkView, b: LinkView) -> bool {
    a.created_at > b.created_at || (a.created_at == b.created_at && text_less(a.id, b.id))
}

fn row_before(a: &ShortenedURL, b: &ShortenedURL) -> (r: bool)
    ensures
        r == index_before(a@, b@),
{
    a.created_at > b.created_at || (a.created_at == b.created_at && text_lt(
        a.id.0.as_str(),
        b.id.0.as_str(),
    ))
}

/// Two rows with the same clustering key.
pub open spec fn same_key(a: LinkView, b: LinkView) -> bool {
    a.created_at == b.created_at && a.id == b.id
}

/// Rows in clustering order, each key at most once.
pub open spec fn index_sorted(rows: Seq<LinkView>) -> bool {
    &&& forall|i: int| 0 <= i < rows.len() - 1 ==> index_before(#[trigger] rows[i], rows[i + 1])
    &&& forall|i: int, j: int| 0 <= i < j < rows.len() ==> !same_key(rows[i], rows[j])
}

/// The rows of one page of at most `limit` rows from position `offset`, and the
/// position after it if rows remain.
pub open spec fn page_of(rows: Seq<LinkView>, limit: int, offset: int) -> (Seq<LinkView>, Option<int>) {
    let start = if offset < rows.len() { offset } else { rows.len() as int };
    let end = if start + limit < rows.len() { start + limit } else { rows.len() as int };
    (rows.subrange(start, end), if end < rows.len() { Some(end) } else { None })
}

/// All the rows that a walk through the pages from `offset` yields, in order.
pub open spec fn page_walk(rows: Seq<LinkView>, limit: int, offset: int) -> Seq<LinkView>
    decreases rows.len() - offset,
{
    if limit < 1 || offset < 0 {
        Seq::empty()
    } else {
        let (items, next) = page_of(rows, limit, offset);
        match next {
            Some(n) => if n > offset {
                items + page_walk(rows, limit, n)
            } else {
                items
            },
            None => items,
        }
    }
}

/// Walking the pages from the start, whatever their size, yields every row once,
/// in order.
pub proof fn lemma_page_walk(rows: Seq<LinkView>, limit: int, offset: int)
    requires
        1 <= limit,
        0 <= offset <= rows.len(),
    ensures
        page_walk(rows, limit, offset) == rows.subrange(offset, rows.len() as int),
    decreases rows.len() - offset,
{
    let (items, next) = page_of(rows, limit, offset);
    match next {
        Some(n) => {
            lemma_page_walk(rows, limit, n);
            assert(items + rows.subrange(n, rows.len() as int) =~= rows.subrange(
                offset,
                rows.len() as int,
            ));
        },
        None => {
            assert(items =~= rows.subrange(offset, rows.len() as int));
        },
    }
}

/// The rows of one partition of the creation-time index, in clustering order.
pub struct OrderedIndex {
    rows: Vec<ShortenedURL>,
}

impl View for OrderedIndex {
    type V = Seq<LinkView>;

    closed spec fn view(&self) -> Seq<LinkView> {
        self.rows@.map_values(|r: ShortenedURL| r@)
    }
}

impl OrderedIndex {
    pub fn new() -> (r: Self)
        ensures
            r@ == Seq::<LinkView>::empty(),
    {
        let r = OrderedIndex { rows: Vec::new() };
        assert(r@ =~= Seq::<LinkView>::empty());
        r
    }

    /// The number of rows.
    pub fn len(&self) -> (r: usize)
        ensures
            r == self@.len(),
    {
        self.rows.len()
    }

    /// Whether the partition holds any row.
    pub fn is_empty(&self) -> (r: bool)
        ensures
            r == (self@.len() == 0),
    {
        self.rows.len() == 0
    }

    fn holds_key(&self, row: &ShortenedURL) -> (r: bool)
        ensures
            r == exists|i: int| 0 <= i < self@.len() && same_key(self@[i], row@),
    {
        let mut i: usize = 0;
        while i < self.rows.len()
            invariant
                i <= self.rows@.len(),
                forall|j: int| 0 <= j < i ==> !same_key(#[trigger] self@[j], row@),
            decreases self.rows@.len() - i,
        {
            if self.rows[i].created_at == row.created_at && self.rows[i].id.0 == row.id.0 {
                assert(same_key(self@[i as int], row@));
                return true;
            }
            assert(!same_key(self@[i as int], row@));
            i = i + 1;
        }
        false
    }

    /// Inserts `row` at its place in clustering order unless a row with its key is
    /// there already; says whether it did.
    pub fn insert_if_absent(&mut self, row: ShortenedURL) -> (applied: bool)
        requires
            index_sorted(old(self)@),
        ensures
            index_sorted(final(self)@),
            applied == !exists|i: int| 0 <= i < old(self)@.len() && same_key(old(self)@[i], row@),
            applied ==> exists|p: int|
                0 <= p <= old(self)@.len() && final(self)@ == old(self)@.insert(p, row@),
            !applied ==> final(self)@ == old(self)@,
    {
        if self.holds_key(&row) {
            return false;
        }
        let ghost r = row@;
        let mut p: usize = 0;
        while p < self.rows.len() && row_before(&self.rows[p], &row)
            invariant
                p <= self.rows@.len(),
                r == row@,
                forall|j: int| 0 <= j < p ==> index_before(#[trigger] self@[j], r),
            decreases self.rows@.len() - p,
        {
            p = p + 1;
        }
        let ghost before = self@;
        self.rows.insert(p, row);
        assert(self@ =~= before.insert(p as int, r));
        proof {
            if (p as int) < before.len() {
                assert(!index_before(before[p as int], r));
                assert(!same_key(before[p as int], r));
                lemma_text_less_total(before[p as int].id, r.id);
            }
            let s = self@;
            assert forall|i: int| 0 <= i < s.len() - 1 implies index_before(
                #[trigger] s[i],
                s[i + 1],
            ) by {
                if i + 1 < p {
                    assert(s[i] == before[i] && s[i + 1] == before[i + 1]);
                } else if i + 1 == p {
                    assert(s[i] == before[i]);
                } else if i == p {
                } else {
                    assert(s[i] == before[i - 1] && s[i + 1] == before[i]);
                }
            }
            assert forall|i: int, j: int| 0 <= i < j < s.len() implies !same_key(s[i], s[j]) by {
                if j < p {
                } else if j == p {
                    assert(s[i] == before[i]);
                } else if i < p {
                    assert(s[j] == before[j - 1]);
                } else if i == p {
                    assert(s[j] == before[j - 1]);
                } else {
                    assert(s[i] == before[i - 1] && s[j] == before[j - 1]);
                }
            }
        }
        true
    }

    /// The rows of one page, copied out.
    pub fn page(&self, limit: usize, offset: usize) -> (r: (Vec<ShortenedURL>, Option<usize>))
        requires
            1 <= limit,
        ensures
            r.0@.map_values(|l: ShortenedURL| l@) == page_of(self@, limit as int, offset as int).0,
            match page_of(self@, limit as int, offset as int).1 {
                Some(n) => r.1 == Some(n as usize),
                None => r.1 is None,
            },
    {
        let len = self.rows.len();
        let start = if offset < len { offset } else { len };
        let end = if limit < len - start { start + limit } else { len };
        let mut out: Vec<ShortenedURL> = Vec::new();
        let mut i: usize = start;
        while i < end
            invariant
                start <= i <= end <= len == self.rows@.len(),
                out@.len() == i - start,
                out@.map_values(|l: ShortenedURL| l@) == self@.subrange(start as int, i as int),
            decreases end - i,
        {
            let row = self.rows[i].duplicate();
            assert(self@[i as int] == self.rows@[i as int]@);
            let ghost prev = out@;
            out.push(row);
            assert forall|k: int| 0 <= k < out@.len() implies out@[k]@ == self@[start + k] by {
                if k < prev.len() {
                    assert(out@[k] == prev[k]);
                    assert(prev.map_values(|l: ShortenedURL| l@)[k] == self@.subrange(
                        start as int,
                        i as int,
                    )[k]);
                }
            }
            assert(out@.map_values(|l: ShortenedURL| l@) =~= self@.subrange(start as int, i + 1));
            i = i + 1;
        }
        (out, if end < len { Some(end) } else { None })
    }
}

} // verus!
