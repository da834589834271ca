//! Names of scratch directories and run files: fixed prefixes followed by
//! zero-padded decimal ordinals, so names sort in creation order and
//! distinct ordinals never collide.

use vstd::prelude::*;

verus! {

/// The ASCII character of decimal digit `d`.
pub open spec fn digit_char(d: int) -> char {
    (48 + d) as char
}

/// The decimal digits of `n`, most significant first, with no leading zero
/// (zero itself is `"0"`).
pub open spec fn decimal_digits(n: nat) -> Seq<char>
    decreases n,
{
    if n < 10 {
        seq![digit_char(n as int)]
    } else {
        decimal_digits(n / 10).push(digit_char((n % 10) as int))
    }
}

/// `k` copies of `'0'`.
pub open spec fn zeros(k: nat) -> Seq<char> {
    Seq::new(k, |i: int| '0')
}

/// The decimal digits of `n`, left-padded with `'0'` to at least `width`
/// characters.
pub open spec fn zero_padded(n: nat, width: nat) -> Seq<char> {
    let digits = decimal_digits(n);
    if digits.len() >= width {
        digits
    } else {
        zeros((width - digits.len()) as nat) + digits
    }
}

/// The number a sequence of decimal digit characters denotes.
pub open spec fn decimal_value(s: Seq<char>) -> int
    decreases s.len(),
{
    if s.len() == 0 {
        0
    } else {
        decimal_value(s.drop_last()) * 10 + (s.last() as int - 48)
    }
}

proof fn lemma_decimal_digits_value(n: nat)
    ensures
        decimal_value(decimal_digits(n)) == n,
        decimal_digits(n).len() >= 1,
    decreases n,
{
    if n >= 10 {
        lemma_decimal_digits_value(n / 10);
        let d = decimal_digits(n / 10);
        assert(decimal_digits(n).drop_last() =~= d);
        assert(digit_char((n % 10) as int) as int == 48 + n % 10);
        assert((n / 10) * 10 + n % 10 == n);
        let s = decimal_digits(n);
        assert(s.last() == digit_char((n % 10) as int));
        assert(decimal_value(s) == decimal_value(d) * 10 + (s.last() as int - 48));
    } else {
        assert(digit_char(n as int) as int == 48 + n);
        assert(decimal_digits(n).drop_last() =~= Seq::<char>::empty());
        assert(decimal_value(Seq::<char>::empty()) == 0);
        assert(decimal_value(decimal_digits(n)) == decimal_value(Seq::<char>::empty()) * 10 + (
        digit_char(n as int) as int - 48));
    }
}

proof fn lemma_zeros_value(k: nat)
    ensures
        decimal_value(zeros(k)) == 0,
    decreases k,
{
    if k > 0 {
        assert(zeros(k).drop_last() =~= zeros((k - 1) as nat));
        lemma_zeros_value((k - 1) as nat);
    }
}

proof fn lemma_prefix_zeros_value(k: nat, s: Seq<char>)
    ensures
        decimal_value(zeros(k) + s) == decimal_value(s),
    decreases s.len(),
{
    if s.len() == 0 {
        assert(zeros(k) + s =~= zeros(k));
        lemma_zeros_value(k);
    } else {
        assert((zeros(k) + s).drop_last() =~= zeros(k) + s.drop_last());
        lemma_prefix_zeros_value(k, s.drop_last());
    }
}

/// Law: zero padding never changes the number a name denotes.
pub proof fn law_zero_padded_value(n: nat, width: nat)
    ensures
        decimal_value(zero_padded(n, width)) == n,
        zero_padded(n, width).len() >= width,
{
    lemma_decimal_digits_value(n);
    if decimal_digits(n).len() < width {
        lemma_prefix_zeros_value((width - decimal_digits(n).len()) as nat, decimal_digits(n));
    }
}

/// Law: distinct ordinals get distinct names, whatever fixed prefix and
/// suffix surround them.
pub proof fn law_distinct_ordinals_distinct_names(
    prefix: Seq<char>,
    suffix: Seq<char>,
    a: nat,
    b: nat,
    width: nat,
)
    requires
        a != b,
    ensures
        prefix + zero_padded(a, width) + suffix != prefix + zero_padded(b, width) + suffix,
{
    law_zero_padded_value(a, width);
    law_zero_padded_value(b, width);
    let na = prefix + zero_padded(a, width) + suffix;
    let nb = prefix + zero_padded(b, width) + suffix;
    if na == nb {
        let pa = zero_padded(a, width);
        let pb = zero_padded(b, width);
        if pa.len() == pb.len() {
            assert(pa =~= na.subrange(prefix.len() as int, (prefix.len() + pa.len()) as int));
            assert(pb =~= nb.subrange(prefix.len() as int, (prefix.len() + pb.len()) as int));
        } else {
            assert(na.len() != nb.len());
        }
    }
}

fn digit_str(d: u64) -> (s: &'static str)
    requires
        d < 10,
    ensures
        s@ == seq![digit_char(d as int)],
{
    match d {
        0 => {
            proof {
                reveal_strlit("0");
            }
            "0"
        },
        1 => {
            proof {
                reveal_strlit("1");
            }
            "1"
        },
        2 => {
            proof {
                reveal_strlit("2");
            }
            "2"
        },
        3 => {
            proof {
                reveal_strlit("3");
            }
            "3"
        },
        4 => {
            proof {
                reveal_strlit("4");
            }
            "4"
        },
        5 => {
            proof {
                reveal_strlit("5");
            }
            "5"
        },
        6 => {
            proof {
                reveal_strlit("6");
            }
            "6"
        },
        7 => {
            proof {
                reveal_strlit("7");
            }
            "7"
        },
        8 => {
            proof {
                reveal_strlit("8");
            }
            "8"
        },
        _ => {
            proof {
                reveal_strlit("9");
            }
            "9"
        },
    }
}

fn decimal_len(n: u64) -> (len: usize)
    ensures
        len == decimal_digits(n as nat).len(),
        1 <= len <= 20,
    decreases n,
{
    if n < 10 {
        1
    } else {
        let inner = decimal_len(n / 10);
        assert(decimal_digits(n as nat).len() == decimal_digits((n / 10) as nat).len() + 1);
        proof {
            lemma_digits_len_bound(n as nat);
        }
        inner + 1
    }
}

proof fn lemma_digits_len_bound(n: nat)
    requires
        n <= u64::MAX,
    ensures
        decimal_digits(n).len() <= 20,
{
    assert(pow10(20) == 100000000000000000000nat) by {
        reveal_with_fuel(pow10, 21);
    }
    lemma_digits_len_below(n, 20);
}

proof fn lemma_digits_len_below(n: nat, k: nat)
    requires
        n < pow10(k),
        k >= 1,
    ensures
        decimal_digits(n).len() <= k,
    decreases k,
{
    if n >= 10 {
        assert(n / 10 < pow10((k - 1) as nat)) by (nonlinear_arith)
            requires
                n < pow10(k),
                k >= 1,
                pow10(k) == 10 * pow10((k - 1) as nat),
        ;
        if k == 1 {
            assert(pow10(1) == 10);
        } else {
            lemma_digits_len_below(n / 10, (k - 1) as nat);
        }
    }
}

spec fn pow10(k: nat) -> nat
    decreases k,
{
    if k == 0 {
        1
    } else {
        10 * pow10((k - 1) as nat)
    }
}

fn append_decimal(out: &mut String, n: u64)
    ensures
        final(out)@ == old(out)@ + decimal_digits(n as nat),
    decreases n,
{
    if n >= 10 {
        append_decimal(out, n / 10);
    }
    out.append(digit_str(n % 10));
    proof {
        if n >= 10 {
            assert(decimal_digits(n as nat) == decimal_digits((n / 10) as nat).push(
                digit_char((n % 10) as int),
            ));
        }
    }
}

/// Append `n` in decimal, left-padded with zeros to `width` characters.
fn append_zero_padded(out: &mut String, n: u64, width: usize)
    ensures
        final(out)@ == old(out)@ + zero_padded(n as nat, width as nat),
{
    let len = decimal_len(n);
    let ghost start = out@;
    if len < width {
        let pad = width - len;
        let mut i: usize = 0;
        while i < pad
            invariant
                i <= pad,
                out@ == start + zeros(i as nat),
            decreases pad - i,
        {
            proof {
                reveal_strlit("0");
            }
            out.append("0");
            i = i + 1;
            assert(out@ =~= start + zeros(i as nat));
        }
    }
    append_decimal(out, n);
    assert(out@ =~= start + zero_padded(n as nat, width as nat));
}

/// The name of the scratch directory of the sort with id `id`:
/// `"sort-"` followed by the id zero-padded to twenty digits.
pub fn scratch_dir_name(id: u64) -> (name: String)
    ensures
        name@ == "sort-"@ + zero_padded(id as nat, 20),
{
    let mut name = String::from_str("sort-");
    append_zero_padded(&mut name, id, 20);
    name
}

/// The file name of the spill run with ordinal `ordinal`: `"run-"`, the
/// ordinal zero-padded to six digits, and `".cbor"`.
pub fn run_file_name(ordinal: u32) -> (name: String)
    ensures
        name@ == "run-"@ + zero_padded(ordinal as nat, 6) + ".cbor"@,
{
    let mut name = String::from_str("run-");
    append_zero_padded(&mut name, ordinal as u64, 6);
    name.append(".cbor");
    name
}

/// The file name of the merged output of group `group` in cascade pass
/// `pass`: `"merge-"`, the pass zero-padded to three digits, `"-"`, the
/// group zero-padded to five digits, and `".cbor"`.
pub fn merge_file_name(pass: u32, group: u64) -> (name: String)
    ensures
        name@ == "merge-"@ + zero_padded(pass as nat, 3) + "-"@ + zero_padded(group as nat, 5)
            + ".cbor"@,
{
    let mut name = String::from_str("merge-");
    append_zero_padded(&mut name, pass as u64, 3);
    name.append("-");
    append_zero_padded(&mut name, group, 5);
    name.append(".cbor");
    name
}

/// Whether `s` is the hyphenated lower-case text of a UUID: 36 characters,
/// hyphens at offsets 8, 13, 18 and 23, lower-case hex digits elsewhere.
pub open spec fn is_hyphenated_uuid(s: Seq<char>) -> bool {
    &&& s.len() == 36
    &&& forall|i: int|
        0 <= i < 36 ==> if i == 8 || i == 13 || i == 18 || i == 23 {
            s[i] == '-'
        } else {
            ('0' <= #[trigger] s[i] <= '9') || ('a' <= s[i] <= 'f')
        }
}

/// Whether `s` is the hyphenated text of a random (version 4, RFC 4122
/// variant) UUID: hyphenated lower-case hex with the version digit `'4'` at
/// offset 14 and a variant digit of `'8'`, `'9'`, `'a'` or `'b'` at offset 19.
pub open spec fn is_random_uuid_text(s: Seq<char>) -> bool {
    &&& is_hyphenated_uuid(s)
    &&& s[14] == '4'
    &&& (s[19] == '8' || s[19] == '9' || s[19] == 'a' || s[19] == 'b')
}

/// The text of a fresh random (version 4) UUID, from `uuid::Uuid::new_v4`
/// rendered through its `Display` impl. The value is random, so the
/// contract states only its shape: the crate fixes the version and variant
/// bits and renders the UUID hyphenated, in lower-case hex.
#[verifier::external_body]
fn random_uuid_text() -> (text: String)
    ensures
        is_random_uuid_text(text@),
{
    uuid::Uuid::new_v4().to_string()
}

/// The scratch directory name of an ungoverned sort whose random token is
/// `token`: `"sort-"` followed by the token.
pub fn scratch_dir_name_for_token(token: &str) -> (name: String)
    ensures
        name@ == "sort-"@ + token@,
{
    let mut name = String::from_str("sort-");
    name.append(token);
    name
}

/// A fresh, unique-with-overwhelming-probability scratch directory name for
/// a sort that runs without a governor: `"sort-"` followed by the text of a
/// random UUID.
pub fn fresh_scratch_dir_name() -> (name: String)
    ensures
        exists|token: Seq<char>| is_random_uuid_text(token) && name@ == "sort-"@ + token,
{
    let text = random_uuid_text();
    let name = scratch_dir_name_for_token(text.as_str());
    assert(is_random_uuid_text(text@) && name@ == "sort-"@ + text@);
    name
}

} // verus!
