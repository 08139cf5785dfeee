//! Escaping of user text placed inside SQL `ILIKE` patterns.

use vstd::prelude::*;

verus! {

/// The escape sequence written for one input character.
pub open spec fn escape_char(c: char) -> Seq<char> {
    if c == '\\' {
        seq!['\\', '\\']
    } else if c == '%' {
        seq!['\\', '%']
    } else if c == '_' {
        seq!['\\', '_']
    } else {
        seq![c]
    }
}

/// `s` with every backslash, percent sign and underscore escaped by a
/// backslash.
pub open spec fn escaped(s: Seq<char>) -> Seq<char>
    decreases s.len(),
{
    if s.len() == 0 {
        Seq::empty()
    } else {
        escaped(s.drop_last()) + escape_char(s.last())
    }
}

/// How `ILIKE ... ESCAPE '\'` reads a pattern as literal text: a backslash
/// makes the next character literal.
pub open spec fn unescaped(s: Seq<char>) -> Seq<char>
    decreases s.len(),
{
    if s.len() == 0 {
        Seq::empty()
    } else if s[0] == '\\' && s.len() >= 2 {
        seq![s[1]] + unescaped(s.subrange(2, s.len() as int))
    } else {
        seq![s[0]] + unescaped(s.drop_first())
    }
}

/// Appends one character to a string: calls `String::push`.
#[verifier::external_body]
fn push_char(s: &mut String, c: char)
    ensures
        final(s)@ == old(s)@.push(c),
{
    s.push(c);
}

/// Whether two strings hold the same characters.
pub fn str_eq(a: &str, b: &str) -> (r: bool)
    ensures
        r == (a@ == b@),
{
    let n = a.unicode_len();
    if n != b.unicode_len() {
        return false;
    }
    let mut i: usize = 0;
    let mut same = true;
    while i < n && same
        invariant
            n == a@.len(),
            n == b@.len(),
            i <= n,
            same ==> forall|k: int| 0 <= k < i ==> a@[k] == b@[k],
            !same ==> a@ != b@,
        decreases n - i,
    {
        if a.get_char(i) != b.get_char(i) {
            same = false;
        }
        i += 1;
    }
    if same {
        assert(a@ =~= b@);
    }
    same
}

/// Escapes SQL `ILIKE` wildcards so user input remains literal.
pub fn escape_ilike_pattern(input: &str) -> (r: String)
    ensures
        r@ == escaped(input@),
{
    let n = input.unicode_len();
    let mut out = String::new();
    let mut i: usize = 0;
    while i < n
        invariant
            n == input@.len(),
            i <= n,
            out@ == escaped(input@.take(i as int)),
        decreases n - i,
    {
        let c = input.get_char(i);
        proof {
            assert(input@.take(i + 1).drop_last() =~= input@.take(i as int));
        }
        if c == '\\' {
            push_char(&mut out, '\\');
            push_char(&mut out, '\\');
        } else if c == '%' {
            push_char(&mut out, '\\');
            push_char(&mut out, '%');
        } else if c == '_' {
            push_char(&mut out, '\\');
            push_char(&mut out, '_');
        } else {
            push_char(&mut out, c);
        }
        proof {
            assert(out@ =~= escaped(input@.take(i as int)) + escape_char(c));
        }
        i += 1;
    }
    assert(input@.take(n as int) =~= input@);
    out
}

/// The `ILIKE` pattern matching `input` anywhere in a text: the escaped
/// input between two `%` wildcards.
pub fn fuzzy_pattern(input: &str) -> (r: String)
    ensures
        r@ == seq!['%'] + escaped(input@) + seq!['%'],
{
    let mut r = String::new();
    push_char(&mut r, '%');
    let e = escape_ilike_pattern(input);
    r.append(e.as_str());
    push_char(&mut r, '%');
    assert(r@ =~= seq!['%'] + escaped(input@) + seq!['%']);
    r
}

/// Escaping distributes over concatenation.
proof fn lemma_escaped_concat(a: Seq<char>, b: Seq<char>)
    ensures
        escaped(a + b) == escaped(a) + escaped(b),
    decreases b.len(),
{
    if b.len() == 0 {
        assert(a + b =~= a);
        assert(escaped(a) + escaped(b) =~= escaped(a));
    } else {
        lemma_escaped_concat(a, b.drop_last());
        assert((a + b).drop_last() =~= a + b.drop_last());
        assert((a + b).last() == b.last());
        assert(escaped(a + b) =~= escaped(a) + escaped(b));
    }
}

/// Reading an escaped pattern literally gives back the input: escaping
/// keeps user text literal inside an `ILIKE` pattern.
pub proof fn lemma_unescape_escaped(s: Seq<char>)
    ensures
        unescaped(escaped(s)) == s,
    decreases s.len(),
{
    if s.len() > 0 {
        let c = s[0];
        let rest = s.drop_first();
        assert(s =~= seq![c] + rest);
        lemma_escaped_concat(seq![c], rest);
        assert(seq![c].drop_last() =~= Seq::<char>::empty());
        assert(seq![c].last() == c);
        assert(escaped(Seq::<char>::empty()) =~= Seq::<char>::empty());
        assert(escaped(seq![c]) =~= escape_char(c));
        lemma_unescape_escaped(rest);
        let e = escaped(s);
        assert(e =~= escape_char(c) + escaped(rest));
        if c == '\\' || c == '%' || c == '_' {
            assert(e[0] == '\\');
            assert(e[1] == c);
            assert(e.subrange(2, e.len() as int) =~= escaped(rest));
        } else {
            assert(e[0] == c);
            assert(e.drop_first() =~= escaped(rest));
        }
    }
}

} // verus!
