//! Payload file names: how a name splits into tag, timestamp and extension,
//! and the names that the repository and the crypt directory give to files.

use vstd::prelude::*;
use vstd::string::*;

use crate::util::{decimal_text, is_digit, push_decimal};

verus! {

/// Extension of a checksum sidecar file.
pub const MD5EXT: &'static str = "md5sum";

/// Index of the first `.` at or after `i`, or the length where there is none.
pub open spec fn first_dot_from(s: Seq<char>, i: int) -> int
    decreases s.len() - i,
{
    if i >= s.len() {
        s.len() as int
    } else if s[i] == '.' {
        i
    } else {
        first_dot_from(s, i + 1)
    }
}

/// Number of decimal digits at the end of `s`.
pub open spec fn trailing_digits(s: Seq<char>) -> nat
    decreases s.len(),
{
    if s.len() > 0 && is_digit(s.last()) {
        1 + trailing_digits(s.drop_last())
    } else {
        0
    }
}

pub open spec fn is_separator(c: char) -> bool {
    c == '-' || c == '_'
}

/// `s` without its trailing `-` and `_` characters.
pub open spec fn trim_separators(s: Seq<char>) -> Seq<char>
    decreases s.len(),
{
    if s.len() > 0 && is_separator(s.last()) {
        trim_separators(s.drop_last())
    } else {
        s
    }
}

/// The parts of a payload file name `{prefix}{digits}.{ext}`, or `None`
/// where the name does not have that shape.
///
/// The prefix is everything before the run of digits that ends just before
/// the first `.`; it must be non-empty, and non-empty once its trailing `-`
/// and `_` are removed, which gives the tag. The extension is everything
/// after the first `.`, and may itself hold dots. A checksum sidecar name
/// (ending in `.md5sum`) is never a payload name.
pub open spec fn filename_parts(name: Seq<char>) -> Option<(Seq<char>, Seq<char>, Seq<char>)> {
    let d = first_dot_from(name, 0);
    let k = d - trailing_digits(name.take(d));
    if is_sidecar(name) || d >= name.len() || k == d || k <= 0 || trim_separators(name.take(k)).len()
        == 0 {
        None
    } else {
        Some((trim_separators(name.take(k)), name.subrange(k, d), name.skip(d + 1)))
    }
}

/// Why a file name was refused.
#[derive(Debug, Clone, Copy, PartialEq, Eq)]
pub enum FilenameError {
    /// The name is a checksum sidecar name, or is not `{prefix}{digits}.{ext}`
    /// with a tag left in the prefix.
    InvalidFileName,
}

proof fn lemma_trailing_digits_step(s: Seq<char>, k: int)
    requires
        0 < k <= s.len(),
        is_digit(s[k - 1]),
    ensures
        trailing_digits(s.take(k)) == 1 + trailing_digits(s.take(k - 1)),
{
    assert(s.take(k).drop_last() =~= s.take(k - 1));
}

proof fn lemma_trim_step(s: Seq<char>, k: int)
    requires
        0 < k <= s.len(),
        is_separator(s[k - 1]),
    ensures
        trim_separators(s.take(k)) == trim_separators(s.take(k - 1)),
{
    assert(s.take(k).drop_last() =~= s.take(k - 1));
}

/// Splits a payload file name into tag, timestamp digits and extension.
///
/// `hello-world-_-_-20240101.tar.bz2` gives `hello-world`, `20240101` and
/// `tar.bz2`.
pub fn split_filename(name: &str) -> (r: Result<(&str, &str, &str), FilenameError>)
    ensures
        r is Ok <==> filename_parts(name@) is Some,
        r is Ok ==> {
            let (tag, date, ext) = r->Ok_0;
            filename_parts(name@) == Some((tag@, date@, ext@))
        },
{
    if is_sidecar_name(name) {
        return Err(FilenameError::InvalidFileName);
    }
    let ghost s = name@;
    let n = name.unicode_len();
    // the first dot
    let mut d: usize = 0;
    while d < n && name.get_char(d) != '.'
        invariant
            n == s.len(),
            s == name@,
            d <= n,
            first_dot_from(s, 0) == first_dot_from(s, d as int),
        decreases n - d,
    {
        d = d + 1;
    }
    assert(first_dot_from(s, 0) == d);
    if d >= n {
        return Err(FilenameError::InvalidFileName);
    }
    // the run of digits before it
    let mut k: usize = d;
    while k > 0 && is_ascii_digit(name.get_char(k - 1))
        invariant
            n == s.len(),
            s == name@,
            k <= d < n,
            trailing_digits(s.take(d as int)) == (d - k) + trailing_digits(s.take(k as int)),
        decreases k,
    {
        proof {
            lemma_trailing_digits_step(s, k as int);
            assert(s.take(d as int).take(k as int) =~= s.take(k as int));
        }
        k = k - 1;
    }
    proof {
        if k > 0 {
            assert(s.take(k as int).drop_last() =~= s.take(k - 1));
        }
        assert(trailing_digits(s.take(k as int)) == 0);
    }
    if k == d || k == 0 {
        return Err(FilenameError::InvalidFileName);
    }
    // the tag: the prefix without trailing separators
    let mut e: usize = k;
    while e > 0 && is_separator_char(name.get_char(e - 1))
        invariant
            n == s.len(),
            s == name@,
            e <= k < d < n,
            trim_separators(s.take(k as int)) == trim_separators(s.take(e as int)),
        decreases e,
    {
        proof {
            lemma_trim_step(s, e as int);
        }
        e = e - 1;
    }
    proof {
        if e > 0 {
            assert(s.take(e as int).drop_last() =~= s.take(e - 1));
        }
        assert(trim_separators(s.take(e as int)) == s.take(e as int));
    }
    if e == 0 {
        return Err(FilenameError::InvalidFileName);
    }
    let tag = name.substring_char(0, e);
    let date = name.substring_char(k, d);
    let ext = name.substring_char(d + 1, n);
    assert(tag@ =~= trim_separators(s.take(k as int)));
    assert(ext@ =~= s.skip(d + 1));
    Ok((tag, date, ext))
}

proof fn lemma_first_dot_at(s: Seq<char>, i: int, d: int)
    requires
        0 <= i <= d <= s.len(),
        forall|j: int| i <= j < d ==> s[j] != '.',
        d == s.len() || s[d] == '.',
    ensures
        first_dot_from(s, i) == d,
    decreases d - i,
{
    if i < d {
        lemma_first_dot_at(s, i + 1, d);
    }
}

proof fn lemma_trailing_digits_of_run(p: Seq<char>, q: Seq<char>)
    requires
        p.len() == 0 || !is_digit(p.last()),
        forall|j: int| 0 <= j < q.len() ==> is_digit(#[trigger] q[j]),
    ensures
        trailing_digits(p + q) == q.len(),
    decreases q.len(),
{
    if q.len() == 0 {
        assert(p + q =~= p);
        if p.len() > 0 {
            assert(!is_digit((p + q).last()));
        }
    } else {
        assert((p + q).drop_last() =~= p + q.drop_last());
        lemma_trailing_digits_of_run(p, q.drop_last());
    }
}

/// A name made of a dot-free prefix that ends in no digit, a run of digits,
/// a dot and any extension splits back into the prefix
/// (trailing `-` and `_` removed), the digits and the extension, provided the
/// trimmed prefix is not empty and the name is not a checksum sidecar name.
pub proof fn lemma_split_filename_parts(prefix: Seq<char>, digits: Seq<char>, ext: Seq<char>)
    requires
        forall|j: int| 0 <= j < prefix.len() ==> prefix[j] != '.',
        prefix.len() > 0 && !is_digit(prefix.last()),
        8 <= digits.len() <= 14,
        forall|j: int| 0 <= j < digits.len() ==> is_digit(#[trigger] digits[j]),
        trim_separators(prefix).len() > 0,
        !is_sidecar(prefix + digits + seq!['.'] + ext),
    ensures
        filename_parts(prefix + digits + seq!['.'] + ext) == Some(
            (trim_separators(prefix), digits, ext),
        ),
{
    let name = prefix + digits + seq!['.'] + ext;
    let d: int = (prefix.len() + digits.len()) as int;
    assert forall|j: int| 0 <= j < d implies name[j] != '.' by {
        if j >= prefix.len() {
            assert(is_digit(digits[j - prefix.len()]));
        }
    }
    lemma_first_dot_at(name, 0, d);
    assert(name.take(d) =~= prefix + digits);
    lemma_trailing_digits_of_run(prefix, digits);
    assert(name.take(prefix.len() as int) =~= prefix);
    assert(name.subrange(prefix.len() as int, d) =~= digits);
    assert(name.skip(d + 1) =~= ext);
}

/// A name is refused when it is a checksum sidecar name, when it has no
/// dot, when no digit stands right before its first dot, or when the part
/// before the digits is empty once its trailing `-` and `_` are removed.
pub proof fn lemma_split_filename_refuses(name: Seq<char>)
    ensures
        is_sidecar(name) ==> filename_parts(name) is None,
        (forall|j: int| 0 <= j < name.len() ==> name[j] != '.') ==> filename_parts(name) is None,
        (forall|j: int| 0 <= j < name.len() ==> !is_digit(#[trigger] name[j])) ==> filename_parts(
            name,
        ) is None,
        ({
            let d = first_dot_from(name, 0);
            trim_separators(name.take(d - trailing_digits(name.take(d)))).len() == 0
        }) ==> filename_parts(name) is None,
{
    if forall|j: int| 0 <= j < name.len() ==> name[j] != '.' {
        lemma_first_dot_at(name, 0, name.len() as int);
    }
    lemma_first_dot_bounds(name, 0);
    let d = first_dot_from(name, 0);
    if forall|j: int| 0 <= j < name.len() ==> !is_digit(#[trigger] name[j]) {
        if d > 0 {
            assert(!is_digit(name.take(d).last()));
        }
        assert(trailing_digits(name.take(d)) == 0);
    }
}

proof fn lemma_first_dot_bounds(s: Seq<char>, i: int)
    requires
        0 <= i <= s.len(),
    ensures
        i <= first_dot_from(s, i) <= s.len(),
    decreases s.len() - i,
{
    if i < s.len() && s[i] != '.' {
        lemma_first_dot_bounds(s, i + 1);
    }
}

/// The text `.md5sum` that ends every checksum sidecar name.
pub open spec fn sidecar_suffix() -> Seq<char> {
    seq!['.', 'm', 'd', '5', 's', 'u', 'm']
}

/// A name whose extension is the sidecar extension: it ends in `.md5sum`
/// and has something before that dot.
pub open spec fn is_sidecar(name: Seq<char>) -> bool {
    name.len() > 7 && name.skip(name.len() - 7) == sidecar_suffix()
}

/// True when `name` is a checksum sidecar, which is never a payload.
pub fn is_sidecar_name(name: &str) -> (r: bool)
    ensures
        r == is_sidecar(name@),
{
    let n = name.unicode_len();
    if n <= 7 {
        return false;
    }
    proof {
        reveal_strlit(".md5sum");
    }
    let tail = name.substring_char(n - 7, n);
    assert(".md5sum"@ =~= sidecar_suffix());
    assert(tail@ =~= name@.skip(n - 7));
    crate::util::str_eq(tail, ".md5sum")
}

/// `{name}.md5sum`.
pub open spec fn sidecar_name_text(name: Seq<char>) -> Seq<char> {
    name + sidecar_suffix()
}

/// The name of the checksum sidecar of `name`.
pub fn sidecar_name(name: &str) -> (r: String)
    ensures
        r@ == sidecar_name_text(name@),
{
    let mut out = name.to_owned();
    proof {
        reveal_strlit(".md5sum");
    }
    out.append(".md5sum");
    out
}

/// `{tag}_{date}.{ext}`.
pub open spec fn stored_name_text(tag: Seq<char>, date: Seq<char>, ext: Seq<char>) -> Seq<char> {
    tag + seq!['_'] + date + seq!['.'] + ext
}

/// The name under which a payload is kept in the repository.
pub fn stored_name(tag: &str, date: &str, ext: &str) -> (r: String)
    ensures
        r@ == stored_name_text(tag@, date@, ext@),
{
    let mut out = tag.to_owned();
    proof {
        reveal_strlit("_");
        reveal_strlit(".");
    }
    out.append("_");
    out.append(date);
    out.append(".");
    out.append(ext);
    out
}

/// Decimal text of `n` padded with leading zeros to at least `width` digits.
pub open spec fn zero_padded(n: nat, width: nat) -> Seq<char> {
    let t = decimal_text(n);
    if t.len() < width {
        Seq::new((width - t.len()) as nat, |i: int| '0') + t
    } else {
        t
    }
}

/// `{name}.{index}` with the index written with at least six digits.
pub open spec fn fragment_name_text(name: Seq<char>, index: nat) -> Seq<char> {
    name + seq!['.'] + zero_padded(index, 6)
}

/// The name of fragment number `index` of the stored file `name`.
pub fn fragment_name(name: &str, index: u64) -> (r: String)
    ensures
        r@ == fragment_name_text(name@, index as nat),
{
    let mut digits = String::new();
    push_decimal(&mut digits, index as u128);
    assert(digits@ == decimal_text(index as nat));
    let len = digits.as_str().unicode_len();
    let mut out = name.to_owned();
    proof {
        reveal_strlit(".");
        reveal_strlit("0");
    }
    out.append(".");
    let mut pad: usize = len;
    while pad < 6
        invariant
            len == decimal_text(index as nat).len(),
            len <= pad <= 6 || (pad == len && len > 6),
            out@ == name@ + seq!['.'] + Seq::new((pad - len) as nat, |i: int| '0'),
        decreases 6 - pad,
    {
        proof {
            reveal_strlit("0");
        }
        out.append("0");
        assert(Seq::new((pad + 1 - len) as nat, |i: int| '0') =~= Seq::new(
            (pad - len) as nat,
            |i: int| '0',
        ) + seq!['0']);
        assert(out@ =~= name@ + seq!['.'] + Seq::new((pad + 1 - len) as nat, |i: int| '0'));
        pad = pad + 1;
    }
    out.append(digits.as_str());
    assert(out@ =~= fragment_name_text(name@, index as nat));
    out
}

fn is_ascii_digit(c: char) -> (r: bool)
    ensures
        r == is_digit(c),
{
    '0' <= c && c <= '9'
}

fn is_separator_char(c: char) -> (r: bool)
    ensures
        r == is_separator(c),
{
    c == '-' || c == '_'
}

} // verus!
