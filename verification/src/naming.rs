//! Deterministic names: archive entry names with zero-padded indices,
//! archive file names, output paths, and file-name extensions.

use vstd::prelude::*;

verus! {

/// The one-character string for a decimal digit.
pub open spec fn spec_digit_str(d: nat) -> Seq<char> {
    if d == 0 {
        "0"@
    } else if d == 1 {
        "1"@
    } else if d == 2 {
        "2"@
    } else if d == 3 {
        "3"@
    } else if d == 4 {
        "4"@
    } else if d == 5 {
        "5"@
    } else if d == 6 {
        "6"@
    } else if d == 7 {
        "7"@
    } else if d == 8 {
        "8"@
    } else {
        "9"@
    }
}

/// The decimal rendering of `n`, most significant digit first, no sign,
/// no leading zero except for `n == 0` itself.
pub open spec fn spec_decimal(n: nat) -> Seq<char>
    decreases n,
{
    if n < 10 {
        spec_digit_str(n)
    } else {
        spec_decimal(n / 10) + spec_digit_str(n % 10)
    }
}

/// How many decimal digits `n` has.
pub open spec fn spec_num_digits(n: nat) -> nat
    decreases n,
{
    if n < 10 {
        1
    } else {
        1 + spec_num_digits(n / 10)
    }
}

/// `k` zero characters.
pub open spec fn spec_zeros(k: nat) -> Seq<char>
    decreases k,
{
    if k == 0 {
        Seq::empty()
    } else {
        spec_zeros((k - 1) as nat) + "0"@
    }
}

/// The decimal rendering of `index` left-padded with zeros to the number
/// of digits of `width_of`.
pub open spec fn spec_padded_index(index: nat, width_of: nat) -> Seq<char> {
    let digits = spec_decimal(index);
    let width = spec_num_digits(width_of);
    if digits.len() >= width {
        digits
    } else {
        spec_zeros((width - digits.len()) as nat) + digits
    }
}

/// The stored name of one archive entry: the one-based page index, padded
/// to the width of the page count, then a dot and the page's extension.
pub open spec fn spec_entry_name(index: nat, total: nat, ext: Seq<char>) -> Seq<char> {
    spec_padded_index(index, total) + "."@ + ext
}

/// The count of decimal digits never exceeds one more than the number.
proof fn lemma_num_digits_le(n: nat)
    ensures
        spec_num_digits(n) <= n + 1,
    decreases n,
{
    if n >= 10 {
        lemma_num_digits_le(n / 10);
        assert(n / 10 + 2 <= n + 1) by (nonlinear_arith)
            requires
                n >= 10,
        ;
    }
}

fn digit_str(d: u64) -> (r: &'static str)
    requires
        d < 10,
    ensures
        r@ == spec_digit_str(d as nat),
{
    match d {
        0 => "0",
        1 => "1",
        2 => "2",
        3 => "3",
        4 => "4",
        5 => "5",
        6 => "6",
        7 => "7",
        8 => "8",
        _ => "9",
    }
}

/// Appends the decimal rendering of `n` to `out`.
fn append_decimal(out: &mut String, n: u64)
    ensures
        final(out)@ == old(out)@ + spec_decimal(n as nat),
    decreases n,
{
    if n >= 10 {
        append_decimal(out, n / 10);
    }
    out.append(digit_str(n % 10));
    proof {
        if n < 10 {
            assert(n % 10 == n);
        }
        assert(final(out)@ =~= old(out)@ + spec_decimal(n as nat));
    }
}

/// The number of decimal digits of `n`.
fn num_digits(n: u64) -> (r: u64)
    ensures
        r == spec_num_digits(n as nat),
    decreases n,
{
    if n < 10 {
        1
    } else {
        let r = num_digits(n / 10);
        proof {
            lemma_num_digits_le((n / 10) as nat);
        }
        1 + r
    }
}

/// Builds the archive entry name for the page at one-based `index` out of
/// `total` pages in its chapter, with extension `ext`: the index is
/// zero-padded to the width of `total`.
pub fn page_entry_name(index: u64, total: u64, ext: &str) -> (r: String)
    ensures
        r@ == spec_entry_name(index as nat, total as nat, ext@),
{
    let mut out = String::new();
    let digits = num_digits(index);
    let width = num_digits(total);
    let mut pad: u64 = digits;
    while pad < width
        invariant
            digits <= pad <= width || pad == digits,
            out@ == spec_zeros((pad - digits) as nat),
            digits == spec_num_digits(index as nat),
            width == spec_num_digits(total as nat),
        decreases width - pad,
    {
        out.append("0");
        proof {
            assert(spec_zeros((pad + 1 - digits) as nat) =~= spec_zeros(
                (pad - digits) as nat,
            ) + "0"@);
        }
        pad = pad + 1;
    }
    append_decimal(&mut out, index);
    out.append(".");
    out.append(ext);
    proof {
        lemma_decimal_len(index as nat);
        assert(out@ =~= spec_entry_name(index as nat, total as nat, ext@));
    }
    out
}

/// Every digit string is one character long.
proof fn lemma_digit_str_len(d: nat)
    ensures
        spec_digit_str(d).len() == 1,
{
    reveal_strlit("0");
    reveal_strlit("1");
    reveal_strlit("2");
    reveal_strlit("3");
    reveal_strlit("4");
    reveal_strlit("5");
    reveal_strlit("6");
    reveal_strlit("7");
    reveal_strlit("8");
    reveal_strlit("9");
}

/// More decimal digits never come from a smaller number.
proof fn lemma_num_digits_monotone(a: nat, b: nat)
    requires
        a <= b,
    ensures
        spec_num_digits(a) <= spec_num_digits(b),
    decreases b,
{
    if a >= 10 {
        assert(a / 10 <= b / 10) by (nonlinear_arith)
            requires
                a <= b,
        ;
        lemma_num_digits_monotone(a / 10, b / 10);
    }
}

/// A one-based page index, padded for its chapter's page count, is
/// exactly as wide as the count itself reads in decimal.
pub proof fn lemma_padded_width(index: nat, total: nat)
    requires
        1 <= index <= total,
    ensures
        spec_padded_index(index, total).len() == spec_num_digits(total),
{
    lemma_decimal_len(index);
    lemma_num_digits_monotone(index, total);
    if spec_decimal(index).len() < spec_num_digits(total) {
        lemma_zeros_len((spec_num_digits(total) - spec_decimal(index).len()) as nat);
    }
}

proof fn lemma_zeros_len(k: nat)
    ensures
        spec_zeros(k).len() == k,
    decreases k,
{
    if k > 0 {
        lemma_zeros_len((k - 1) as nat);
        reveal_strlit("0");
    }
}

/// The decimal rendering has exactly `spec_num_digits` characters.
proof fn lemma_decimal_len(n: nat)
    ensures
        spec_decimal(n).len() == spec_num_digits(n),
    decreases n,
{
    if n < 10 {
        lemma_digit_str_len(n);
    } else {
        lemma_decimal_len(n / 10);
        lemma_digit_str_len(n % 10);
    }
}

/// Every zero in `spec_zeros` is the zero character.
proof fn lemma_zeros_all(k: nat)
    ensures
        forall|j: int| 0 <= j < spec_zeros(k).len() ==> spec_zeros(k)[j] == '0',
    decreases k,
{
    reveal_strlit("0");
    if k > 0 {
        lemma_zeros_all((k - 1) as nat);
        lemma_zeros_len(k);
        lemma_zeros_len((k - 1) as nat);
    }
}

/// Different digits render as different one-character strings.
proof fn lemma_digit_str_injective(a: nat, b: nat)
    requires
        a < 10,
        b < 10,
        spec_digit_str(a) == spec_digit_str(b),
    ensures
        a == b,
{
    broadcast use vstd::string::group_string_axioms;

    reveal_strlit("0");
    reveal_strlit("1");
    reveal_strlit("2");
    reveal_strlit("3");
    reveal_strlit("4");
    reveal_strlit("5");
    reveal_strlit("6");
    reveal_strlit("7");
    reveal_strlit("8");
    reveal_strlit("9");
    assert("0"@[0] == '0');
    assert("1"@[0] == '1');
    assert("2"@[0] == '2');
    assert("3"@[0] == '3');
    assert("4"@[0] == '4');
    assert("5"@[0] == '5');
    assert("6"@[0] == '6');
    assert("7"@[0] == '7');
    assert("8"@[0] == '8');
    assert("9"@[0] == '9');
    if a != b {
        assert(spec_digit_str(a)[0] != spec_digit_str(b)[0]);
        assert(spec_digit_str(a)[0] == spec_digit_str(b)[0]);
    }
}

/// At least one digit, always.
proof fn lemma_num_digits_pos(n: nat)
    ensures
        spec_num_digits(n) >= 1,
    decreases n,
{
    if n >= 10 {
        lemma_num_digits_pos(n / 10);
    }
}

/// A positive number's decimal rendering never starts with a zero.
proof fn lemma_decimal_leading_nonzero(n: nat)
    requires
        n >= 1,
    ensures
        spec_decimal(n)[0] != '0',
    decreases n,
{
    reveal_strlit("0");
    reveal_strlit("1");
    reveal_strlit("2");
    reveal_strlit("3");
    reveal_strlit("4");
    reveal_strlit("5");
    reveal_strlit("6");
    reveal_strlit("7");
    reveal_strlit("8");
    reveal_strlit("9");
    if n >= 10 {
        lemma_decimal_leading_nonzero(n / 10);
        lemma_decimal_len(n / 10);
    }
}

/// Different numbers render as different decimal strings.
proof fn lemma_decimal_injective(a: nat, b: nat)
    requires
        spec_decimal(a) == spec_decimal(b),
    ensures
        a == b,
    decreases a,
{
    lemma_decimal_len(a);
    lemma_decimal_len(b);
    lemma_digit_str_len(a % 10);
    lemma_digit_str_len(b % 10);
    if a < 10 && b < 10 {
        lemma_digit_str_injective(a, b);
    } else if a < 10 || b < 10 {
        // One rendering is a single digit and the other is longer.
        if a >= 10 {
            lemma_num_digits_pos(a / 10);
        } else {
            lemma_num_digits_pos(b / 10);
        }
        assert(spec_num_digits(a) == spec_num_digits(b));
        assert(false);
    } else {
        let da = spec_decimal(a);
        let db = spec_decimal(b);
        assert(da.last() == spec_digit_str(a % 10)[0]);
        assert(db.last() == spec_digit_str(b % 10)[0]);
        assert(spec_digit_str(a % 10) =~= spec_digit_str(b % 10));
        lemma_digit_str_injective(a % 10, b % 10);
        assert(da.drop_last() =~= spec_decimal(a / 10));
        assert(db.drop_last() =~= spec_decimal(b / 10));
        lemma_decimal_injective(a / 10, b / 10);
        assert(a == 10 * (a / 10) + a % 10) by (nonlinear_arith);
        assert(b == 10 * (b / 10) + b % 10) by (nonlinear_arith);
    }
}

/// Two different one-based indices, both padded for the same page count,
/// render as different strings.
proof fn lemma_padded_injective(a: nat, b: nat, total: nat)
    requires
        1 <= a <= total,
        1 <= b <= total,
        spec_padded_index(a, total) == spec_padded_index(b, total),
    ensures
        a == b,
{
    let w = spec_num_digits(total);
    let da = spec_decimal(a);
    let db = spec_decimal(b);
    lemma_decimal_len(a);
    lemma_decimal_len(b);
    lemma_num_digits_monotone(a, total);
    lemma_num_digits_monotone(b, total);
    lemma_padded_width(a, total);
    lemma_padded_width(b, total);
    let pa = spec_padded_index(a, total);
    let pb = spec_padded_index(b, total);
    if da.len() == db.len() {
        if da.len() < w {
            lemma_zeros_len((w - da.len()) as nat);
            assert(forall|k: int| 0 <= k < da.len() ==> da[k] == pa[w - da.len() + k]);
            assert(forall|k: int| 0 <= k < db.len() ==> db[k] == pb[w - db.len() + k]);
        }
        assert(da =~= db);
        lemma_decimal_injective(a, b);
    } else if da.len() < db.len() {
        lemma_padded_prefix_zero(a, b, total);
        assert(false);
    } else {
        lemma_padded_prefix_zero(b, a, total);
        assert(false);
    }
}

/// A shorter index rendering puts a zero where a longer one puts its
/// leading digit, so the two padded forms differ.
proof fn lemma_padded_prefix_zero(a: nat, b: nat, total: nat)
    requires
        1 <= a <= total,
        1 <= b <= total,
        spec_decimal(a).len() < spec_decimal(b).len(),
    ensures
        spec_padded_index(a, total) != spec_padded_index(b, total),
{
    let w = spec_num_digits(total);
    let da = spec_decimal(a);
    let db = spec_decimal(b);
    lemma_decimal_len(a);
    lemma_decimal_len(b);
    lemma_num_digits_monotone(b, total);
    lemma_padded_width(a, total);
    lemma_padded_width(b, total);
    lemma_decimal_leading_nonzero(b);
    let k = w - db.len();
    lemma_zeros_len((w - da.len()) as nat);
    lemma_zeros_all((w - da.len()) as nat);
    if db.len() < w {
        lemma_zeros_len((w - db.len()) as nat);
        assert(spec_padded_index(b, total)[k] == db[0]);
    }
    assert(spec_padded_index(a, total)[k] == '0');
}

/// Two different one-based page indices, padded for one page count, give
/// different entry names, whatever the two extensions are.
pub proof fn lemma_entry_name_injective(a: nat, b: nat, total: nat, ea: Seq<char>, eb: Seq<char>)
    requires
        1 <= a <= total,
        1 <= b <= total,
        a != b,
    ensures
        spec_entry_name(a, total, ea) != spec_entry_name(b, total, eb),
{
    let w = spec_num_digits(total);
    lemma_padded_width(a, total);
    lemma_padded_width(b, total);
    if spec_entry_name(a, total, ea) == spec_entry_name(b, total, eb) {
        let pa = spec_padded_index(a, total);
        let pb = spec_padded_index(b, total);
        assert(forall|k: int|
            0 <= k < w ==> spec_entry_name(a, total, ea)[k] == pa[k] && spec_entry_name(
                b,
                total,
                eb,
            )[k] == pb[k]);
        assert(pa =~= pb);
        lemma_padded_injective(a, b, total);
    }
}

/// Any value a 64-bit count can take has at most twenty decimal digits.
pub proof fn lemma_num_digits_le_20(n: nat)
    requires
        n <= 0xFFFF_FFFF_FFFF_FFFF,
    ensures
        spec_num_digits(n) <= 20,
{
    lemma_num_digits_monotone(n, 0xFFFF_FFFF_FFFF_FFFF);
    assert(spec_num_digits(0xFFFF_FFFF_FFFF_FFFF) == 20) by {
        reveal_with_fuel(spec_num_digits, 21);
    }
}

/// Each character encodes to at most four UTF-8 bytes.
proof fn lemma_encode_utf8_len(s: Seq<char>)
    ensures
        vstd::utf8::encode_utf8(s).len() <= 4 * s.len(),
    decreases s.len(),
{
    if s.len() > 0 {
        lemma_encode_utf8_len(s.drop_first());
        assert(vstd::utf8::encode_scalar(s[0] as u32).len() <= 4);
    }
}

/// An entry name, in UTF-8, fits the container format's 16-bit name
/// length whenever the extension is not absurdly long: the index part
/// has at most twenty digits and a dot, and no character takes more than
/// four bytes.
pub proof fn lemma_entry_name_utf8_bound(index: nat, total: nat, ext: Seq<char>)
    requires
        index <= 0xFFFF_FFFF_FFFF_FFFF,
        total <= 0xFFFF_FFFF_FFFF_FFFF,
        ext.len() <= 16000,
    ensures
        vstd::utf8::encode_utf8(spec_entry_name(index, total, ext)).len() <= 65535,
{
    let name = spec_entry_name(index, total, ext);
    lemma_decimal_len(index);
    lemma_num_digits_le_20(index);
    lemma_num_digits_le_20(total);
    if spec_decimal(index).len() < spec_num_digits(total) {
        lemma_zeros_len((spec_num_digits(total) - spec_decimal(index).len()) as nat);
    }
    assert(spec_padded_index(index, total).len() <= 20);
    reveal_strlit(".");
    assert(name.len() <= 16021);
    lemma_encode_utf8_len(name);
}

/// The index of the last dot in `s`, or -1 when there is none.
pub open spec fn spec_last_dot(s: Seq<char>) -> int
    decreases s.len(),
{
    if s.len() == 0 {
        -1
    } else if s.last() == '.' {
        s.len() - 1
    } else {
        spec_last_dot(s.drop_last())
    }
}

/// The extension of a file name: what follows the final dot, unless the
/// name holds no dot or only a leading one.
pub open spec fn spec_extension_of(name: Seq<char>) -> Option<Seq<char>> {
    let p = spec_last_dot(name);
    if p <= 0 {
        None
    } else {
        Some(name.subrange(p + 1, name.len() as int))
    }
}

proof fn lemma_last_dot_at(s: Seq<char>, p: int)
    requires
        0 <= p < s.len(),
        s[p] == '.',
        forall|j: int| p < j < s.len() ==> s[j] != '.',
    ensures
        spec_last_dot(s) == p,
    decreases s.len(),
{
    if p < s.len() - 1 {
        assert(s.last() != '.');
        lemma_last_dot_at(s.drop_last(), p);
    }
}

proof fn lemma_no_dot(s: Seq<char>)
    requires
        forall|j: int| 0 <= j < s.len() ==> s[j] != '.',
    ensures
        spec_last_dot(s) == -1,
    decreases s.len(),
{
    if s.len() > 0 {
        lemma_no_dot(s.drop_last());
    }
}

/// Resolves the extension of a page file name, as archive entry naming
/// needs it.  A name without a dot, or with only a leading dot, has none.
pub fn extension_of(name: &str) -> (r: Option<String>)
    ensures
        match r {
            Some(e) => spec_extension_of(name@) == Some(e@),
            None => spec_extension_of(name@) is None,
        },
{
    let n = name.unicode_len();
    let mut i: usize = n;
    while i > 0
        invariant
            i <= n,
            n == name@.len(),
            forall|j: int| i <= j < n ==> name@[j] != '.',
        decreases i,
    {
        if name.get_char(i - 1) == '.' {
            proof {
                lemma_last_dot_at(name@, i - 1);
            }
            if i == 1 {
                return None;
            }
            let e = name.substring_char(i, n);
            return Some(String::from_str(e));
        }
        i = i - 1;
    }
    proof {
        lemma_no_dot(name@);
    }
    None
}

/// The name of an entry relative to the root it was found under: what
/// follows the root prefix and its path separator.  A path no longer than
/// the prefix has no such name.
pub fn relative_name(path: &str, prefix_len: usize) -> (r: Option<String>)
    ensures
        match r {
            Some(s) => prefix_len + 1 <= path@.len() && s@ == path@.subrange(
                prefix_len + 1,
                path@.len() as int,
            ),
            None => prefix_len + 1 > path@.len(),
        },
{
    let n = path.unicode_len();
    if prefix_len < n {
        let s = path.substring_char(prefix_len + 1, n);
        Some(String::from_str(s))
    } else {
        None
    }
}

/// Joins a directory path and a child name with a slash.
pub fn path_join(dir: &str, name: &str) -> (r: String)
    ensures
        r@ == dir@ + "/"@ + name@,
{
    let mut r = String::from_str(dir);
    r.append("/");
    r.append(name);
    r
}

/// The file name of a chapter's archive: `<title> - <chapter>.cbz`.
pub fn archive_file_name(title: &str, chapter: &str) -> (r: String)
    ensures
        r@ == title@ + " - "@ + chapter@ + ".cbz"@,
{
    let mut r = String::from_str(title);
    r.append(" - ");
    r.append(chapter);
    r.append(".cbz");
    r
}

} // verus!
