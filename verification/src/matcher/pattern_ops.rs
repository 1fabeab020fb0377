//! The `LIKE` (SQL wildcard) and `MATCHES` (regular expression) operators.

use vstd::prelude::*;

use crate::text::{chars_of, push_str_chars, string_from_chars};

verus! {

#[verifier::external_type_specification]
#[verifier::external_body]
pub struct ExRegex(regex::Regex);

/// Whether `regex::Regex::new` accepts a pattern.
pub uninterp spec fn regex_compiles(pattern: Seq<char>) -> bool;

/// Whether the regex compiled from `pattern` matches somewhere in `haystack`
/// (`regex::Regex::is_match`).
pub uninterp spec fn regex_finds(pattern: Seq<char>, haystack: Seq<char>) -> bool;

/// A compiled regular expression, with the pattern it was compiled from.
pub struct CompiledRegex {
    regex: regex::Regex,
    source: String,
}

impl View for CompiledRegex {
    type V = Seq<char>;

    closed spec fn view(&self) -> Seq<char> {
        self.source@
    }
}

/// Calls `regex::Regex::new`. The contract names the outcome: a compiled
/// regex, which keeps its pattern, exactly when the crate accepts the pattern
/// (`regex_compiles`); which patterns it accepts is not stated here.
#[verifier::external_body]
fn compile_regex(pattern: &str) -> (r: Option<CompiledRegex>)
    ensures
        r is Some == regex_compiles(pattern@),
        r matches Some(re) ==> re@ == pattern@,
{
    match regex::Regex::new(pattern) {
        Ok(regex) => Some(CompiledRegex { regex, source: pattern.to_string() }),
        Err(_) => None,
    }
}

/// Calls `regex::Regex::is_match`. The contract names the result: whether the
/// regex compiled from the pattern matches somewhere in the haystack
/// (`regex_finds`); the matching semantics are not stated here.
#[verifier::external_body]
fn regex_is_match(re: &CompiledRegex, haystack: &str) -> (r: bool)
    ensures
        r == regex_finds(re@, haystack@),
{
    re.regex.is_match(haystack)
}

/// Whether a character has special meaning in a regex
/// (`regex_syntax::is_meta_character`).
pub open spec fn is_regex_meta(c: char) -> bool {
    c == '\\' || c == '.' || c == '+' || c == '*' || c == '?' || c == '(' || c == ')' || c == '|'
        || c == '[' || c == ']' || c == '{' || c == '}' || c == '^' || c == '$' || c == '#'
        || c == '&' || c == '-' || c == '~'
}

/// Text with a backslash before every meta character.
pub open spec fn regex_escaped(t: Seq<char>) -> Seq<char>
    decreases t.len(),
{
    if t.len() == 0 {
        Seq::empty()
    } else {
        regex_escaped(t.drop_last()) + if is_regex_meta(t.last()) {
            seq!['\\', t.last()]
        } else {
            seq![t.last()]
        }
    }
}

/// Calls `regex::escape`, which (in regex-syntax) writes each character of
/// the text, preceded by a backslash when it is a meta character.
#[verifier::external_body]
fn escape_regex(text: &str) -> (r: String)
    ensures
        r@ == regex_escaped(text@),
{
    regex::escape(text)
}

/// The regex text for one character of a `LIKE` pattern: `%` is any run of
/// characters, `_` exactly one, anything else itself.
pub open spec fn like_piece(c: char) -> Seq<char> {
    if c == '%' {
        seq!['.', '*']
    } else if c == '_' {
        seq!['.']
    } else {
        regex_escaped(seq![c])
    }
}

/// The regex text for a sequence of `LIKE` characters.
pub open spec fn like_body(p: Seq<char>) -> Seq<char>
    decreases p.len(),
{
    if p.len() == 0 {
        Seq::empty()
    } else {
        like_body(p.drop_last()) + like_piece(p.last())
    }
}

/// The anchored regex a `LIKE` pattern is translated to. It starts with the
/// `s` flag, so that `.` also matches a newline: `%` and `_` stand for any
/// characters whatever.
pub open spec fn like_regex(p: Seq<char>) -> Seq<char> {
    like_prefix() + like_body(p) + seq!['$']
}

/// The flag group and anchor in front of every translated `LIKE` pattern.
pub open spec fn like_prefix() -> Seq<char> {
    seq!['(', '?', 's', ')', '^']
}

/// Whether every backslash in a regex text starts the escape of a meta
/// character that follows it; so the text ends with no escape left open.
pub open spec fn escapes_closed(t: Seq<char>) -> bool
    decreases t.len(),
{
    if t.len() == 0 {
        true
    } else if t[0] == '\\' {
        t.len() >= 2 && is_regex_meta(t[1]) && escapes_closed(t.subrange(2, t.len() as int))
    } else {
        escapes_closed(t.drop_first())
    }
}

proof fn lemma_escapes_closed_concat(a: Seq<char>, b: Seq<char>)
    requires
        escapes_closed(a),
        escapes_closed(b),
    ensures
        escapes_closed(a + b),
    decreases a.len(),
{
    if a.len() == 0 {
        assert(a + b =~= b);
    } else if a[0] == '\\' {
        lemma_escapes_closed_concat(a.subrange(2, a.len() as int), b);
        assert((a + b).subrange(2, (a + b).len() as int) =~= a.subrange(2, a.len() as int) + b);
    } else {
        lemma_escapes_closed_concat(a.drop_first(), b);
        assert((a + b).drop_first() =~= a.drop_first() + b);
    }
}

proof fn lemma_like_body_closed(p: Seq<char>)
    ensures
        escapes_closed(like_body(p)),
    decreases p.len(),
{
    if p.len() > 0 {
        lemma_like_body_closed(p.drop_last());
        let c = p.last();
        let piece = like_piece(c);
        assert(regex_escaped(seq![c]) == regex_escaped(seq![c].drop_last()) + if is_regex_meta(c) {
            seq!['\\', c]
        } else {
            seq![c]
        });
        assert(seq![c].drop_last() =~= Seq::<char>::empty());
        assert(escapes_closed(piece)) by {
            reveal_with_fuel(escapes_closed, 3);
            if c == '%' {
                assert(piece.drop_first().drop_first() =~= Seq::<char>::empty());
                assert(piece.drop_first() =~= seq!['*']);
            } else if c == '_' {
                assert(piece.drop_first() =~= Seq::<char>::empty());
            } else if is_regex_meta(c) {
                assert(piece =~= seq!['\\', c]);
                assert(piece.subrange(2, 2) =~= Seq::<char>::empty());
            } else {
                assert(piece =~= seq![c]);
                assert(piece.drop_first() =~= Seq::<char>::empty());
            }
        }
        lemma_escapes_closed_concat(like_body(p.drop_last()), piece);
    }
}

/// `LIKE` matches the whole value: the regex a pattern is translated to
/// starts with the `s` flag (so `.` matches a newline too) and a start anchor,
/// and ends with an end anchor that no backslash escapes.
pub proof fn like_regex_is_anchored(p: Seq<char>)
    ensures
        exists|b: Seq<char>| escapes_closed(b) && like_regex(p) == seq!['(', '?', 's', ')', '^'] + b + seq!['$'],
{
    lemma_like_body_closed(p);
    assert(like_regex(p) == seq!['(', '?', 's', ')', '^'] + like_body(p) + seq!['$']);
}

/// Outside `%` and `_`, a `LIKE` pattern is taken literally: for a pattern
/// without them, the regex between the anchors is the pattern escaped as
/// `regex::escape` escapes it, so each of its characters matches only itself.
pub proof fn like_is_literal_without_wildcards(p: Seq<char>)
    requires
        forall|i: int| 0 <= i < p.len() ==> #[trigger] p[i] != '%' && p[i] != '_',
    ensures
        like_body(p) == regex_escaped(p),
    decreases p.len(),
{
    if p.len() > 0 {
        let init = p.drop_last();
        assert forall|i: int| 0 <= i < init.len() implies #[trigger] init[i] != '%' && init[i] != '_' by {
            assert(init[i] == p[i]);
        }
        like_is_literal_without_wildcards(init);
        let c = p.last();
        assert(p[p.len() - 1] == c);
        assert(seq![c].drop_last() =~= Seq::<char>::empty());
        assert(regex_escaped(seq![c]) == regex_escaped(seq![c].drop_last()) + if is_regex_meta(c) {
            seq!['\\', c]
        } else {
            seq![c]
        });
        assert(regex_escaped(Seq::<char>::empty()) + seq![c] =~= seq![c]);
        assert(regex_escaped(Seq::<char>::empty()) + seq!['\\', c] =~= seq!['\\', c]);
    }
}

/// STIX `LIKE`: `%` matches any run of characters, `_` exactly one, and every
/// other character itself. The pattern is translated to an anchored regex with
/// every other character escaped, in which `.` matches a newline too; it
/// matches when that regex compiles and matches the value.
pub fn like_matches(value: &str, pattern: &str) -> (r: bool)
    ensures
        r == (regex_compiles(like_regex(pattern@)) && regex_finds(like_regex(pattern@), value@)),
{
    let pc = chars_of(pattern);
    let mut out: Vec<char> = Vec::new();
    out.push('(');
    out.push('?');
    out.push('s');
    out.push(')');
    out.push('^');
    assert(out@ =~= like_prefix());
    let mut i: usize = 0;
    while i < pc.len()
        invariant
            0 <= i <= pc@.len(),
            pc@ == pattern@,
            out@ == like_prefix() + like_body(pc@.subrange(0, i as int)),
        decreases pc@.len() - i,
    {
        let ch = pc[i];
        let ghost before = out@;
        if ch == '%' {
            out.push('.');
            out.push('*');
        } else if ch == '_' {
            out.push('.');
        } else {
            let mut one: Vec<char> = Vec::new();
            one.push(ch);
            let single = string_from_chars(&one);
            let escaped = escape_regex(single.as_str());
            push_str_chars(&mut out, escaped.as_str());
            assert(one@ =~= seq![ch]);
        }
        proof {
            assert(pc@.subrange(0, i + 1).drop_last() =~= pc@.subrange(0, i as int));
            assert(out@ =~= before + like_piece(ch));
        }
        i = i + 1;
    }
    out.push('$');
    assert(pc@.subrange(0, pc@.len() as int) =~= pc@);
    assert(out@ =~= like_regex(pattern@));
    let regex = string_from_chars(&out);
    match compile_regex(regex.as_str()) {
        Some(re) => regex_is_match(&re, value),
        None => false,
    }
}

/// STIX `MATCHES`: an unanchored regular-expression match; a pattern that does
/// not compile never matches.
pub fn regex_matches(value: &str, pattern: &str) -> (r: bool)
    ensures
        r == (regex_compiles(pattern@) && regex_finds(pattern@, value@)),
{
    match compile_regex(pattern) {
        Some(re) => regex_is_match(&re, value),
        None => false,
    }
}

} // verus!
