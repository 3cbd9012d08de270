use vstd::prelude::*;
use vstd::string::*;

verus! {

/// The decimal digit character for `d`.
pub open spec fn digit_char(d: int) -> char
    recommends
        0 <= d <= 9,
{
    ((48 + d) as u8) as char
}

/// The decimal representation of `n`, most significant digit first, with
/// no sign, padding or separators.
pub open spec fn dec_str(n: nat) -> Seq<char>
    decreases n,
{
    if n < 10 {
        seq![digit_char(n as int)]
    } else {
        dec_str(n / 10) + seq![digit_char((n % 10) as int)]
    }
}

/// Relies on the standard library's `Display` for `u64` (via
/// `to_string`): it writes the number's decimal digits, most significant
/// first, with no sign, padding or separators.
#[verifier::external_body]
fn u64_to_string(n: u64) -> (r: String)
    ensures
        r@ == dec_str(n as nat),
{
    n.to_string()
}

/// The stem of a file name: everything before the first `.`, or the whole
/// name if it has none.
pub open spec fn stem_of(s: Seq<char>) -> Seq<char>
    decreases s.len(),
{
    if s.len() == 0 {
        s
    } else if s[0] == '.' {
        Seq::empty()
    } else {
        seq![s[0]] + stem_of(s.drop_first())
    }
}

/// The base name that output names are built from: the stem, truncated to
/// at most 20 characters.
pub open spec fn base_of(s: Seq<char>) -> Seq<char> {
    if stem_of(s).len() <= 20 {
        stem_of(s)
    } else {
        stem_of(s).take(20)
    }
}

/// The stem is the longest dot-free prefix: it is a prefix of the name,
/// none of its characters is a `.`, and the character after it — if the
/// stem is proper — is the first `.`.
proof fn lemma_stem_shape(s: Seq<char>)
    ensures
        stem_of(s).len() <= s.len(),
        stem_of(s) == s.take(stem_of(s).len() as int),
        forall|j: int| 0 <= j < stem_of(s).len() ==> s[j] != '.',
        stem_of(s).len() < s.len() ==> s[stem_of(s).len() as int] == '.',
    decreases s.len(),
{
    if s.len() == 0 {
    } else if s[0] == '.' {
        assert(stem_of(s) =~= s.take(0));
    } else {
        lemma_stem_shape(s.drop_first());
        let rest = stem_of(s.drop_first());
        assert(stem_of(s) =~= s.take(rest.len() as int + 1));
        assert forall|j: int| 0 <= j < stem_of(s).len() implies s[j] != '.' by {
            if j >= 1 {
                assert(s.drop_first()[j - 1] == s[j]);
            }
        }
    }
}

/// The base name of an input file: the part of its name before the first
/// `.`, truncated to at most 20 characters.
pub fn base_name(name: &str) -> (r: String)
    ensures
        r@ == base_of(name@),
{
    proof {
        lemma_stem_shape(name@);
    }
    let n: usize = name.unicode_len();
    let mut i: usize = 0;
    while i < n && name.get_char(i) != '.'
        invariant
            n == name@.len(),
            i <= n,
            forall|j: int| 0 <= j < i ==> name@[j] != '.',
        decreases n - i,
    {
        i = i + 1;
    }
    proof {
        let stem = stem_of(name@);
        if i < n {
            assert(name@[i as int] == '.');
        }
        assert(stem.len() == i);
    }
    let end: usize = if i > 20 {
        20
    } else {
        i
    };
    let sub: &str = name.substring_char(0, end);
    proof {
        if i > 20 {
            assert(stem_of(name@).take(20) =~= name@.subrange(0, 20));
        }
    }
    sub.to_owned()
}

/// The name of the output directory for a split begun at epoch second
/// `timestamp`: the base name, a dash, and the seconds in decimal.
pub fn output_dir_name(base: &str, timestamp: u64) -> (r: String)
    ensures
        r@ == base@ + "-"@ + dec_str(timestamp as nat),
{
    let t = u64_to_string(timestamp);
    String::from_str(base).concat("-").concat(t.as_str())
}

/// The file name of the chunk at `index`: the base name, `-part-`, the
/// index in decimal with no zero-padding, and `.txt`.
pub fn chunk_file_name(base: &str, index: u64) -> (r: String)
    ensures
        r@ == base@ + "-part-"@ + dec_str(index as nat) + ".txt"@,
{
    let i = u64_to_string(index);
    String::from_str(base).concat("-part-").concat(i.as_str()).concat(".txt")
}

} // verus!
