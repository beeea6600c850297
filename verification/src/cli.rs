//! Command-line arguments and the parsers of their values.
use vstd::prelude::*;
use crate::paths::{contains_parent_dir, has_parent_dir_component, is_absolute, is_absolute_path};
use crate::text::concat;

verus! {

/// The server's settings as given on the command line.
#[derive(Debug, Clone)]
pub struct Arguments {
    /// Host to serve the files on
    pub host: [u8; 4],
    /// Port to serve the files on
    pub port: u16,
    /// Root directory of the files to serve
    pub directory: String,
    /// Simple authentication password to be used to access the endpoints
    pub password: Option<String>,
    /// Enable the ability to upload files
    pub upload: bool,
    /// Actual endpoint to use for file upload
    pub upload_endpoint: String,
    /// Maximum size of a file that can be uploaded (in bytes)
    pub max_upload_size: usize,
}

/// The pieces of `s` between the occurrences of `sep`, empty pieces included
/// (`"1..2"` split on `.` is `["1", "", "2"]`).
pub open spec fn split_on(s: Seq<char>, sep: char) -> Seq<Seq<char>>
    decreases s.len(),
{
    if s.len() == 0 {
        seq![seq![]]
    } else {
        let front = split_on(s.drop_last(), sep);
        if s.last() == sep {
            front.push(seq![])
        } else {
            front.update(front.len() - 1, front.last().push(s.last()))
        }
    }
}

/// One octet in dot-decimal notation: one to three decimal digits, without a
/// leading zero (octal-looking text is refused), of value at most 255.
pub open spec fn is_octet_text(d: Seq<char>) -> bool {
    &&& 1 <= d.len() <= 3
    &&& forall|i: int| 0 <= i < d.len() ==> is_decimal_digit(#[trigger] d[i])
    &&& (d.len() > 1 ==> d[0] != '0')
    &&& decimal_value(d) <= 255
}

/// The octets of an IPv4 address in dot-decimal notation: four octets
/// separated by `.`, and nothing else; `None` for any other text.
pub open spec fn ipv4_octets(text: Seq<char>) -> Option<Seq<u8>> {
    let pieces = split_on(text, '.');
    if pieces.len() == 4 && forall|i: int| 0 <= i < 4 ==> is_octet_text(#[trigger] pieces[i]) {
        Some(Seq::new(4, |i: int| decimal_value(pieces[i]) as u8))
    } else {
        None
    }
}

/// The decimal text of a number, without leading zeros.
pub open spec fn decimal_text(n: nat) -> Seq<char>
    decreases n,
{
    if n < 10 {
        seq![('0' as int + n) as char]
    } else {
        decimal_text(n / 10).push(('0' as int + n % 10) as char)
    }
}

/// The dot-decimal text of four octets.
pub open spec fn dotted_text(a: u8, b: u8, c: u8, d: u8) -> Seq<char> {
    decimal_text(a as nat) + seq!['.'] + decimal_text(b as nat) + seq!['.'] + decimal_text(
        c as nat,
    ) + seq!['.'] + decimal_text(d as nat)
}

/// The decimal text of a number is made of digits, reads back as the number,
/// starts with `0` only for zero, and has at most three digits below 1000.
proof fn lemma_decimal_text(n: nat)
    ensures
        decimal_text(n).len() >= 1,
        forall|i: int| 0 <= i < decimal_text(n).len() ==> is_decimal_digit(#[trigger] decimal_text(n)[i]),
        decimal_value(decimal_text(n)) == n,
        decimal_text(n)[0] == '0' ==> n == 0,
        n < 10 ==> decimal_text(n).len() == 1,
        n < 100 ==> decimal_text(n).len() <= 2,
        n < 1000 ==> decimal_text(n).len() <= 3,
    decreases n,
{
    if n >= 10 {
        lemma_decimal_text(n / 10);
        let t = decimal_text(n / 10);
        assert(decimal_text(n).drop_last() =~= t);
        assert(decimal_text(n)[0] == t[0]);
        let last = ('0' as int + n % 10) as char;
        assert(last as int == '0' as int + n % 10);
        assert(decimal_text(n).last() == last);
        assert(decimal_value(decimal_text(n)) == decimal_value(t) * 10 + (last as int - '0' as int));
        assert((n / 10) * 10 + n % 10 == n);
        assert(decimal_value(decimal_text(n)) == n);
    } else {
        let only = ('0' as int + n) as char;
        assert(only as int == '0' as int + n);
        assert(decimal_text(n).drop_last() =~= Seq::<char>::empty());
        assert(decimal_text(n).last() == only);
        assert(decimal_value(Seq::<char>::empty()) == 0);
        assert(decimal_value(decimal_text(n)) == n);
    }
}

/// Splitting text without the separator gives the text as its only piece.
proof fn lemma_split_without_separator(s: Seq<char>, sep: char)
    requires
        forall|i: int| 0 <= i < s.len() ==> s[i] != sep,
    ensures
        split_on(s, sep) == seq![s],
    decreases s.len(),
{
    if s.len() > 0 {
        lemma_split_without_separator(s.drop_last(), sep);
        assert(s.drop_last().push(s.last()) =~= s);
        assert(split_on(s, sep) =~= seq![s]);
    } else {
        assert(s =~= Seq::<char>::empty());
    }
}

/// Splitting `p`, a separator and `q` gives the pieces of `p`, then those of `q`.
proof fn lemma_split_at_separator(p: Seq<char>, q: Seq<char>, sep: char)
    ensures
        split_on(p + seq![sep] + q, sep) == split_on(p, sep) + split_on(q, sep),
        split_on(q, sep).len() >= 1,
    decreases q.len(),
{
    let whole = p + seq![sep] + q;
    if q.len() == 0 {
        assert(whole.drop_last() =~= p);
        assert(split_on(whole, sep) =~= split_on(p, sep) + split_on(q, sep));
    } else {
        lemma_split_at_separator(p, q.drop_last(), sep);
        assert(whole.drop_last() =~= p + seq![sep] + q.drop_last());
        assert(whole.last() == q.last());
        let a = split_on(p, sep);
        let b = split_on(q.drop_last(), sep);
        if q.last() == sep {
            assert(split_on(whole, sep) =~= a + b.push(seq![]));
        } else {
            assert((a + b).last() == b.last());
            assert(split_on(whole, sep) =~= a + b.update(b.len() - 1, b.last().push(q.last())));
        }
    }
}

/// The decimal text of a number holds no `.`.
proof fn lemma_decimal_text_has_no_dot(n: nat)
    ensures
        forall|i: int| 0 <= i < decimal_text(n).len() ==> decimal_text(n)[i] != '.',
{
    lemma_decimal_text(n);
    assert forall|i: int| 0 <= i < decimal_text(n).len() implies decimal_text(n)[i] != '.' by {
        assert(is_decimal_digit(decimal_text(n)[i]));
    }
}

/// The dot-decimal text of four octets parses back to those octets, in order.
pub proof fn lemma_dotted_text_parses_back(a: u8, b: u8, c: u8, d: u8)
    ensures
        ipv4_octets(dotted_text(a, b, c, d)) == Some(seq![a, b, c, d]),
{
    let ta = decimal_text(a as nat);
    let tb = decimal_text(b as nat);
    let tc = decimal_text(c as nat);
    let td = decimal_text(d as nat);
    lemma_decimal_text(a as nat);
    lemma_decimal_text(b as nat);
    lemma_decimal_text(c as nat);
    lemma_decimal_text(d as nat);
    lemma_decimal_text_has_no_dot(a as nat);
    lemma_decimal_text_has_no_dot(b as nat);
    lemma_decimal_text_has_no_dot(c as nat);
    lemma_decimal_text_has_no_dot(d as nat);
    lemma_split_without_separator(ta, '.');
    lemma_split_without_separator(tb, '.');
    lemma_split_without_separator(tc, '.');
    lemma_split_without_separator(td, '.');
    let abc = ta + seq!['.'] + tb + seq!['.'] + tc;
    let ab = ta + seq!['.'] + tb;
    lemma_split_at_separator(ta, tb, '.');
    lemma_split_at_separator(ab, tc, '.');
    lemma_split_at_separator(abc, td, '.');
    let pieces = split_on(dotted_text(a, b, c, d), '.');
    assert(pieces =~= seq![ta, tb, tc, td]);
    assert(is_octet_text(ta));
    assert(is_octet_text(tb));
    assert(is_octet_text(tc));
    assert(is_octet_text(td));
    assert(forall|i: int| 0 <= i < 4 ==> is_octet_text(#[trigger] pieces[i]));
    assert(Seq::new(4, |i: int| decimal_value(pieces[i]) as u8) =~= seq![a, b, c, d]);
}

/// Name for the text of the error (the `Display` of `AddrParseError`) that
/// `<core::net::Ipv4Addr as FromStr>::from_str` gives for a refused string.
pub uninterp spec fn ipv4_error_text(text: Seq<char>) -> Seq<char>;

/// Calls `<core::net::Ipv4Addr as FromStr>::from_str` and takes the octets of the
/// address, or the text of the error. The contract claims what the
/// documentation of `Ipv4Addr` states of its textual representation: the four
/// octets in decimal, divided by `.`, with octal (leading `0`) and hexadecimal
/// numbers refused; this is `ipv4_octets`. The error text is named by
/// `ipv4_error_text`.
#[verifier::external_body]
fn ipv4_from_str(text: &str) -> (r: Result<[u8; 4], String>)
    ensures
        match r {
            Ok(octets) => ipv4_octets(text@) == Some(octets@),
            Err(e) => ipv4_octets(text@) is None && e@ == ipv4_error_text(text@),
        },
{
    match text.parse::<core::net::Ipv4Addr>() {
        Ok(address) => Ok(address.octets()),
        Err(err) => Err(err.to_string()),
    }
}

/// Parses a dotted IPv4 address into its four octets.
pub fn parse_ip_address(ip: &str) -> (r: Result<[u8; 4], String>)
    ensures
        match ipv4_octets(ip@) {
            Some(octets) => r is Ok && r->Ok_0@ == octets,
            None => r is Err && r->Err_0@ == ipv4_error_text(ip@),
        },
{
    ipv4_from_str(ip)
}

/// A decimal digit.
pub open spec fn is_decimal_digit(c: char) -> bool {
    '0' <= c && c <= '9'
}

/// The value of a sequence of decimal digits.
pub open spec fn decimal_value(digits: Seq<char>) -> int
    decreases digits.len(),
{
    if digits.len() == 0 {
        0
    } else {
        decimal_value(digits.drop_last()) * 10 + (digits.last() as int - '0' as int)
    }
}

/// What `usize::from_str` reads: an optional `+` followed by at least one
/// decimal digit and nothing else, whose value fits in a `usize`.
pub open spec fn usize_parse(text: Seq<char>) -> Option<usize> {
    let digits = if text.len() > 0 && text[0] == '+' {
        text.drop_first()
    } else {
        text
    };
    if digits.len() > 0 && (forall|i: int| 0 <= i < digits.len() ==> is_decimal_digit(#[trigger] digits[i]))
        && decimal_value(digits) <= usize::MAX {
        Some(decimal_value(digits) as usize)
    } else {
        None
    }
}

/// Name for the text of the error (the `Display` of `ParseIntError`) that
/// `<usize as FromStr>::from_str` gives for a refused string.
pub uninterp spec fn usize_error_text(text: Seq<char>) -> Seq<char>;

/// Calls `<usize as FromStr>::from_str`. Its documentation (that of
/// `usize::from_str_radix` with radix 10) states the accepted text: an optional
/// `+` sign followed by only digits, and an error on overflow; the contract says
/// this through `usize_parse`. The text of the error (the `Display` of
/// `ParseIntError`) is named by `usize_error_text`.
#[verifier::external_body]
fn usize_from_str(text: &str) -> (r: Result<usize, String>)
    ensures
        match r {
            Ok(v) => usize_parse(text@) == Some(v),
            Err(e) => usize_parse(text@) is None && e@ == usize_error_text(text@),
        },
{
    match text.parse::<usize>() {
        Ok(value) => Ok(value),
        Err(err) => Err(err.to_string()),
    }
}

/// The error for a size that is zero.
pub open spec fn not_positive_message(size: Seq<char>) -> Seq<char> {
    size + " must be greater than zero"@
}

/// Parses a size that must be at least one.
pub fn parse_usize_bigger_than_zero(size: &str) -> (r: Result<usize, String>)
    ensures
        match usize_parse(size@) {
            Some(v) => if v >= 1 {
                r == Ok::<usize, String>(v)
            } else {
                r is Err && r->Err_0@ == not_positive_message(size@)
            },
            None => r is Err && r->Err_0@ == usize_error_text(size@),
        },
{
    let value = match usize_from_str(size) {
        Ok(v) => v,
        Err(e) => return Err(e),
    };
    if value < 1 {
        return Err(concat(size, " must be greater than zero"));
    }
    Ok(value)
}

/// The error for a path that is not a directory.
pub open spec fn not_a_directory_message(path: Seq<char>) -> Seq<char> {
    path + " is not a directory"@
}

/// Parses the directory to serve: the path itself when it names a
/// directory, as the caller found by asking the file system (`is_dir`).
pub fn parse_directory_pathbuf(path: &str, is_dir: bool) -> (r: Result<String, String>)
    ensures
        is_dir ==> r is Ok && r->Ok_0@ == path@,
        !is_dir ==> r is Err && r->Err_0@ == not_a_directory_message(path@),
{
    if !is_dir {
        return Err(concat(path, " is not a directory"));
    }
    Ok(String::from_str(path))
}

/// A valid endpoint: absolute, without a `..` component.
pub open spec fn is_valid_endpoint(path: Seq<char>) -> bool {
    is_absolute_path(path) && !has_parent_dir_component(path)
}

/// The error for an invalid endpoint.
pub open spec fn invalid_endpoint_message(path: Seq<char>) -> Seq<char> {
    path + " is not a valid endpoint"@
}

/// Parses an endpoint: an absolute path without a `..` component.
pub fn parse_absolute_path(path: &str) -> (r: Result<String, String>)
    ensures
        is_valid_endpoint(path@) ==> r is Ok && r->Ok_0@ == path@,
        !is_valid_endpoint(path@) ==> r is Err && r->Err_0@ == invalid_endpoint_message(path@),
{
    if !is_absolute(path) || contains_parent_dir(path) {
        return Err(concat(path, " is not a valid endpoint"));
    }
    Ok(String::from_str(path))
}

/// An endpoint is valid exactly when it starts with `/` and no two dots
/// stand alone between separators (or the end of the path).
pub proof fn lemma_valid_endpoint_exactly(path: Seq<char>)
    ensures
        is_valid_endpoint(path) <==> (path.len() > 0 && path[0] == '/' && !(exists|i: int|
            0 <= i && i + 2 <= path.len() && #[trigger] path[i] == '.' && path[i + 1] == '.' && (i
                == 0 || path[i - 1] == '/') && (i + 2 == path.len() || path[i + 2] == '/'))),
{
    crate::paths::lemma_parent_dir_component_is_two_dots(path);
}

} // verus!
