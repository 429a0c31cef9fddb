use vstd::prelude::*;

use crate::text::{chars_of, string_from_chars};

verus! {

/// The representative that normalization maps `c` onto. Each confusable
/// group collapses onto one character; every other character stands for itself.
pub open spec fn canonical_char(c: char) -> char {
    if c == 'C' {
        'c'
    } else if c == 'I' || c == 'l' || c == 'j' || c == '1' || c == '7' {
        'i'
    } else if c == 'O' || c == '0' {
        'o'
    } else if c == 'P' {
        'p'
    } else if c == 'S' || c == '5' {
        's'
    } else if c == 'U' || c == 'V' || c == 'v' || c == 'r' {
        'u'
    } else if c == 'W' {
        'w'
    } else if c == 'X' {
        'x'
    } else if c == 'Z' || c == '2' {
        'z'
    } else if c == 'q' {
        '9'
    } else {
        c
    }
}

/// A character that belongs to a confusable group, as a member or as its representative.
pub open spec fn confusable(c: char) -> bool {
    canonical_char(c) != c || c == 'c' || c == 'i' || c == 'o' || c == 'p' || c == 's'
        || c == 'u' || c == 'w' || c == 'x' || c == 'z' || c == '9'
}

/// The canonical form of an identifier: every character replaced by its representative.
pub open spec fn normalized(s: Seq<char>) -> Seq<char> {
    s.map_values(|c: char| canonical_char(c))
}

/// Normalizing twice gives what normalizing once gives.
pub proof fn lemma_normalize_idempotent(s: Seq<char>)
    ensures
        normalized(normalized(s)) == normalized(s),
{
    assert(normalized(normalized(s)) =~= normalized(s));
}

fn canonical(c: char) -> (r: char)
    ensures
        r == canonical_char(c),
{
    if c == 'C' {
        'c'
    } else if c == 'I' || c == 'l' || c == 'j' || c == '1' || c == '7' {
        'i'
    } else if c == 'O' || c == '0' {
        'o'
    } else if c == 'P' {
        'p'
    } else if c == 'S' || c == '5' {
        's'
    } else if c == 'U' || c == 'V' || c == 'v' || c == 'r' {
        'u'
    } else if c == 'W' {
        'w'
    } else if c == 'X' {
        'x'
    } else if c == 'Z' || c == '2' {
        'z'
    } else if c == 'q' {
        '9'
    } else {
        c
    }
}

fn is_confusable(c: char) -> (r: bool)
    ensures
        r == confusable(c),
{
    canonical(c) != c || c == 'c' || c == 'i' || c == 'o' || c == 'p' || c == 's' || c == 'u'
        || c == 'w' || c == 'x' || c == 'z' || c == '9'
}

/// Maps every confusable character of `input` onto its group's representative.
pub fn normalize(input: &str) -> (r: String)
    ensures
        r@ == normalized(input@),
{
    let chars = chars_of(input);
    let mut out: Vec<char> = Vec::new();
    let mut i: usize = 0;
    while i < chars.len()
        invariant
            i <= chars@.len(),
            chars@ == input@,
            out@ == normalized(chars@.subrange(0, i as int)),
        decreases chars@.len() - i,
    {
        out.push(canonical(chars[i]));
        assert(chars@.subrange(0, i + 1) =~= chars@.subrange(0, i as int).push(chars@[i as int]));
        assert(normalized(chars@.subrange(0, i + 1)) =~= normalized(
            chars@.subrange(0, i as int),
        ).push(canonical_char(chars@[i as int])));
        i = i + 1;
    }
    assert(chars@.subrange(0, i as int) =~= chars@);
    string_from_chars(&out)
}


/// The characters of the code points in `[lo, hi)` that belong to no confusable group, in order.
pub open spec fn unconfusable_between(lo: u32, hi: u32) -> Seq<char>
    decreases hi - lo,
{
    if hi <= lo {
        Seq::empty()
    } else {
        let rest = unconfusable_between(lo, (hi - 1) as u32);
        let c = ((hi - 1) as u32) as char;
        if confusable(c) {
            rest
        } else {
            rest.push(c)
        }
    }
}

/// The symbols of generated codes: uppercase letters, then lowercase letters, then
/// digits, each in ascending order, leaving out every confusable character.
pub open spec fn alphabet_spec() -> Seq<char> {
    unconfusable_between(0x41, 0x5b) + unconfusable_between(0x61, 0x7b) + unconfusable_between(
        0x30,
        0x3a,
    )
}

proof fn lemma_unconfusable_between(lo: u32, hi: u32)
    ensures
        forall|i: int|
            0 <= i < unconfusable_between(lo, hi).len() ==> !confusable(
                #[trigger] unconfusable_between(lo, hi)[i],
            ),
    decreases hi - lo,
{
    if lo < hi {
        lemma_unconfusable_between(lo, (hi - 1) as u32);
        let rest = unconfusable_between(lo, (hi - 1) as u32);
        let c = ((hi - 1) as u32) as char;
        assert forall|i: int|
            0 <= i < unconfusable_between(lo, hi).len() implies !confusable(
            #[trigger] unconfusable_between(lo, hi)[i],
        ) by {
            if i < rest.len() {
                assert(unconfusable_between(lo, hi)[i] == rest[i]);
            }
        }
    }
}

/// No symbol of the alphabet belongs to a confusable group.
pub proof fn lemma_alphabet_unconfusable()
    ensures
        forall|i: int| 0 <= i < alphabet_spec().len() ==> !confusable(#[trigger] alphabet_spec()[i]),
{
    lemma_unconfusable_between(0x41, 0x5b);
    lemma_unconfusable_between(0x61, 0x7b);
    lemma_unconfusable_between(0x30, 0x3a);
    let a = unconfusable_between(0x41, 0x5b);
    let b = unconfusable_between(0x61, 0x7b);
    let d = unconfusable_between(0x30, 0x3a);
    assert forall|i: int| 0 <= i < alphabet_spec().len() implies !confusable(
        #[trigger] alphabet_spec()[i],
    ) by {
        if i < a.len() {
            assert(alphabet_spec()[i] == a[i]);
        } else if i < a.len() + b.len() {
            assert(alphabet_spec()[i] == b[i - a.len()]);
        } else {
            assert(alphabet_spec()[i] == d[i - a.len() - b.len()]);
        }
    }
}

fn push_unconfusable(out: &mut Vec<char>, lo: u8, hi: u8)
    requires
        lo <= hi <= 0x7f,
    ensures
        final(out)@ == old(out)@ + unconfusable_between(lo as u32, hi as u32),
{
    let ghost start = out@;
    let mut x: u8 = lo;
    while x < hi
        invariant
            lo <= x <= hi <= 0x7f,
            out@ == start + unconfusable_between(lo as u32, x as u32),
        decreases hi - x,
    {
        let c = x as char;
        assert(c == (x as u32) as char);
        if !is_confusable(c) {
            out.push(c);
        }
        assert(unconfusable_between(lo as u32, (x + 1) as u32) == if confusable(c) {
            unconfusable_between(lo as u32, x as u32)
        } else {
            unconfusable_between(lo as u32, x as u32).push(c)
        });
        x = x + 1;
    }
}

/// The symbols that generated codes are written with.
pub fn alphabets() -> (r: Vec<char>)
    ensures
        r@ == alphabet_spec(),
{
    let mut chars: Vec<char> = Vec::new();
    push_unconfusable(&mut chars, 0x41, 0x5b);
    push_unconfusable(&mut chars, 0x61, 0x7b);
    push_unconfusable(&mut chars, 0x30, 0x3a);
    assert(chars@ =~= alphabet_spec());
    chars
}


/// The shortest code that `ID::generate` hands out.
pub const MIN_CODE_LENGTH: u8 = 5;

/// What sqids encodes `n` to, with this alphabet and minimum length; `None` where it
/// reports an error.
pub uninterp spec fn sqids_encoding(alphabet: Seq<char>, min_length: u8, n: u64) -> Option<
    Seq<char>,
>;

/// Relies on `sqids::SqidsBuilder::build` and `sqids::Sqids::encode`: the code of one
/// number depends on the alphabet and minimum length alone, is at least that long,
/// is written in the alphabet, and decodes back to the number, so no other number
/// has the same code.
#[verifier::external_body]
fn sqids_encode(alphabet: Vec<char>, min_length: u8, n: u64) -> (r: Option<String>)
    ensures
        match r {
            Some(s) => sqids_encoding(alphabet@, min_length, n) == Some(s@),
            None => sqids_encoding(alphabet@, min_length, n) is None,
        },
        r matches Some(s) ==> s@.len() >= min_length,
        r matches Some(s) ==> forall|i: int| 0 <= i < s@.len() ==> alphabet@.contains(#[trigger] s@[i]),
        r matches Some(s) ==> forall|m: u64|
            #[trigger] sqids_encoding(alphabet@, min_length, m) == Some(s@) ==> m == n,
{
    let sqids = sqids::Sqids::builder().min_length(min_length).alphabet(alphabet).build().ok()?;
    sqids.encode(&[n]).ok()
}

/// The code generated for a sequence number, if the encoder gives one.
pub open spec fn generated_code(seq: i64) -> Option<Seq<char>> {
    sqids_encoding(alphabet_spec(), MIN_CODE_LENGTH, #[verifier::truncate] (seq as u64))
}

/// Why no code could be generated.
#[derive(Debug, Clone, Copy, PartialEq, Eq)]
pub enum CodecError {
    /// The encoder found no code that its blocklist lets through.
    EncodingFailed,
}

/// A short-link identifier.
#[derive(Debug, Clone, PartialEq, Eq, Hash)]
pub struct ID(pub String);

impl View for ID {
    type V = Seq<char>;

    open spec fn view(&self) -> Seq<char> {
        self.0@
    }
}

impl ID {
    /// The identifier for a caller-supplied slug, in canonical form.
    pub fn new(s: String) -> (r: Self)
        ensures
            r@ == normalized(s@),
    {
        ID(normalize(s.as_str()))
    }

    /// The identifier for a sequence number: the same number always gives the same
    /// code, no other number gives it, and the code is already in canonical form.
    pub fn generate(seq: i64) -> (r: Result<Self, CodecError>)
        ensures
            match r {
                Ok(id) => generated_code(seq) == Some(id@),
                Err(_) => generated_code(seq) is None,
            },
            r matches Ok(id) ==> id@.len() >= MIN_CODE_LENGTH,
            r matches Ok(id) ==> forall|i: int|
                0 <= i < id@.len() ==> alphabet_spec().contains(#[trigger] id@[i]),
            r matches Ok(id) ==> normalized(id@) == id@,
            r matches Ok(id) ==> forall|other: i64|
                #[trigger] generated_code(other) == Some(id@) ==> other == seq,
    {
        let alphabet = alphabets();
        match sqids_encode(alphabet, MIN_CODE_LENGTH, #[verifier::truncate] (seq as u64)) {
            Some(code) => {
                proof {
                    lemma_alphabet_unconfusable();
                    assert forall|i: int| 0 <= i < code@.len() implies canonical_char(
                        #[trigger] code@[i],
                    ) == code@[i] by {
                        assert(alphabet_spec().contains(code@[i]));
                    }
                    assert(normalized(code@) =~= code@);
                    assert forall|other: i64| #[trigger]
                        generated_code(other) == Some(code@) implies other == seq by {
                        let (a, b) = (other, seq);
                        assert(#[verifier::truncate] (a as u64) == #[verifier::truncate] (b as u64)
                            ==> a == b) by (bit_vector);
                    }
                }
                Ok(ID(code))
            },
            None => Err(CodecError::EncodingFailed),
        }
    }
}

} // verus!
