//! Small operations on text that the rest of the crate is built from.

use vstd::prelude::*;
use vstd::string::*;

verus! {

/// The characters of `s`, one element each.
pub fn chars_of(s: &str) -> (r: Vec<char>)
    ensures
        r@ == s@,
{
    let mut out: Vec<char> = Vec::new();
    for c in it: s.chars()
        invariant
            out@ == it.seq().take(it.index() as int),
            it.seq() == s@,
    {
        out.push(c);
    }
    out
}

/// Whether `chars` spells out `text`.
pub fn spells(chars: &Vec<char>, text: &str) -> (r: bool)
    ensures
        r == (chars@ == text@),
{
    let other = chars_of(text);
    if chars.len() != other.len() {
        return false;
    }
    let mut i: usize = 0;
    while i < chars.len()
        invariant
            0 <= i <= chars.len(),
            chars.len() == other.len(),
            other@ == text@,
            forall|k: int| 0 <= k < i ==> chars@[k] == other@[k],
        decreases chars.len() - i,
    {
        if chars[i] != other[i] {
            return false;
        }
        i = i + 1;
    }
    assert(chars@ =~= text@);
    true
}

/// Whether two texts hold the same characters.
pub fn same_text(a: &str, b: &str) -> (r: bool)
    ensures
        r == (a@ == b@),
{
    let chars = chars_of(a);
    spells(&chars, b)
}

/// `n` copies of `c`.
pub open spec fn repeated(c: char, n: nat) -> Seq<char> {
    Seq::new(n, |i: int| c)
}

/// A run of `n` number signs, the marker of a heading of depth `n`.
pub fn hashes(n: usize) -> (r: String)
    ensures
        r@ == repeated('#', n as nat),
{
    let mut out = String::new();
    let mut i: usize = 0;
    while i < n
        invariant
            0 <= i <= n,
            out@ == repeated('#', i as nat),
        decreases n - i,
    {
        proof {
            reveal_strlit("#");
        }
        out.append("#");
        i = i + 1;
        assert(out@ =~= repeated('#', i as nat));
    }
    out
}

/// `a` followed by `b`.
pub fn glue(a: &str, b: &str) -> (r: String)
    ensures
        r@ == a@ + b@,
{
    let mut out = String::from_str(a);
    out.append(b);
    out
}

/// What `char::to_uppercase` yields for `c`: its uppercase form, which may be
/// more than one character long.
pub uninterp spec fn uppercase_of(c: char) -> Seq<char>;

/// Wraps `char::to_uppercase` of the standard library and gathers the
/// characters it yields. Nothing is proved of this call: the contract gives
/// its result a name and says no more of it.
#[verifier::external_body]
fn uppercase(c: char) -> (r: String)
    ensures
        r@ == uppercase_of(c),
{
    c.to_uppercase().collect()
}

/// `s` with its first character in uppercase.
pub open spec fn capitalized(s: Seq<char>) -> Seq<char> {
    if s.len() == 0 {
        s
    } else {
        uppercase_of(s[0]) + s.drop_first()
    }
}

/// Puts the first character of `string` in uppercase and leaves the rest as
/// it is. The empty text stays empty.
pub fn capitalize_first_letter(string: &str) -> (r: String)
    ensures
        r@ == capitalized(string@),
{
    let n = string.unicode_len();
    if n == 0 {
        return String::new();
    }
    let first = uppercase(string.get_char(0));
    let rest = string.substring_char(1, n);
    assert(rest@ =~= string@.drop_first());
    glue(first.as_str(), rest)
}

/// The heading line of a note: `depth` number signs, a space, the title.
pub open spec fn heading_line(depth: nat, title: Seq<char>) -> Seq<char> {
    repeated('#', depth) + seq![' '] + title
}

/// Builds the heading line of depth `depth` over `title`.
pub fn heading(depth: usize, title: &str) -> (r: String)
    ensures
        r@ == heading_line(depth as nat, title@),
{
    let mut out = hashes(depth);
    proof {
        reveal_strlit(" ");
    }
    out.append(" ");
    out.append(title);
    assert(out@ =~= heading_line(depth as nat, title@));
    out
}

/// Whether `char::is_whitespace` holds of `c`, that is whether Unicode gives
/// `c` the property White_Space.
pub uninterp spec fn whitespace(c: char) -> bool;

/// Wraps `char::is_whitespace` of the standard library. Nothing is proved of
/// this call: the contract gives its result a name and says no more of it.
#[verifier::external_body]
fn is_whitespace(c: char) -> (r: bool)
    ensures
        r == whitespace(c),
{
    c.is_whitespace()
}

/// `s` without the whitespace at its end.
pub open spec fn trimmed_end(s: Seq<char>) -> Seq<char>
    decreases s.len(),
{
    if s.len() > 0 && whitespace(s.last()) {
        trimmed_end(s.drop_last())
    } else {
        s
    }
}

/// `s` without the whitespace at its start.
pub open spec fn trimmed_start(s: Seq<char>) -> Seq<char>
    decreases s.len(),
{
    if s.len() > 0 && whitespace(s[0]) {
        trimmed_start(s.drop_first())
    } else {
        s
    }
}

/// `s` without the whitespace at its two ends.
pub open spec fn trimmed(s: Seq<char>) -> Seq<char> {
    trimmed_start(trimmed_end(s))
}

/// Cuts the whitespace off the end of `line`.
pub fn trim_end(line: &str) -> (r: Vec<char>)
    ensures
        r@ == trimmed_end(line@),
{
    let mut chars = chars_of(line);
    while chars.len() > 0 && is_whitespace(chars[chars.len() - 1])
        invariant
            trimmed_end(chars@) == trimmed_end(line@),
        decreases chars.len(),
    {
        chars.pop();
    }
    chars
}

/// Cuts the whitespace off the two ends of `line`.
pub fn trim(line: &str) -> (r: Vec<char>)
    ensures
        r@ == trimmed(line@),
{
    let chars = trim_end(line);
    let mut start: usize = 0;
    assert(chars@.skip(0) =~= chars@);
    while start < chars.len() && is_whitespace(chars[start])
        invariant
            0 <= start <= chars.len(),
            trimmed_start(chars@.skip(start as int)) == trimmed_start(chars@),
        decreases chars.len() - start,
    {
        assert(chars@.skip(start as int).drop_first() =~= chars@.skip(start + 1));
        start = start + 1;
    }
    let mut out: Vec<char> = Vec::new();
    let mut i: usize = start;
    while i < chars.len()
        invariant
            start <= i <= chars.len(),
            out@ == chars@.subrange(start as int, i as int),
        decreases chars.len() - i,
    {
        out.push(chars[i]);
        i = i + 1;
    }
    assert(out@ =~= chars@.skip(start as int));
    out
}

} // verus!
