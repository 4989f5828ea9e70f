//! Text helpers: comparison and quote stripping.

use vstd::prelude::*;
use vstd::string::*;

verus! {

/// `s` without its double-quote characters.
pub open spec fn strip_quotes(s: Seq<char>) -> Seq<char>
    decreases s.len(),
{
    if s.len() == 0 {
        s
    } else {
        let r = strip_quotes(s.drop_last());
        if s.last() == '"' {
            r
        } else {
            r.push(s.last())
        }
    }
}

pub open spec fn has_no_quote(s: Seq<char>) -> bool {
    forall|i: int| 0 <= i < s.len() ==> #[trigger] s[i] != '"'
}

proof fn lemma_strip_has_no_quote(s: Seq<char>)
    ensures
        has_no_quote(strip_quotes(s)),
    decreases s.len(),
{
    if s.len() > 0 {
        lemma_strip_has_no_quote(s.drop_last());
    }
}

proof fn lemma_strip_quote_free(s: Seq<char>)
    requires
        has_no_quote(s),
    ensures
        strip_quotes(s) == s,
    decreases s.len(),
{
    if s.len() > 0 {
        let t = s.drop_last();
        assert(has_no_quote(t)) by {
            assert forall|i: int| 0 <= i < t.len() implies #[trigger] t[i] != '"' by {
                assert(t[i] == s[i]);
            }
        }
        lemma_strip_quote_free(t);
        assert(s[s.len() - 1] != '"');
        assert(t.push(s.last()) =~= s);
    }
}

/// Stripping quotes is idempotent: stripping twice is stripping once.
pub proof fn lemma_strip_quotes_idempotent(s: Seq<char>)
    ensures
        strip_quotes(strip_quotes(s)) == strip_quotes(s),
{
    lemma_strip_has_no_quote(s);
    lemma_strip_quote_free(strip_quotes(s));
}

/// Whether two texts are equal.
pub fn text_is(a: &str, b: &str) -> (r: bool)
    ensures
        r == (a@ == b@),
{
    a.to_owned() == b.to_owned()
}

/// Relies on std's `String::push`: appends one character.
#[verifier::external_body]
fn push_char(s: &mut String, c: char)
    ensures
        final(s)@ == old(s)@.push(c),
{
    s.push(c)
}

/// A copy of `s` without its double-quote characters.
pub fn strip_quotes_of(s: &str) -> (r: String)
    ensures
        r@ == strip_quotes(s@),
{
    let n = s.unicode_len();
    let mut r = String::new();
    let mut i: usize = 0;
    while i < n
        invariant
            n == s@.len(),
            i <= n,
            r@ == strip_quotes(s@.take(i as int)),
        decreases n - i,
    {
        let c = s.get_char(i);
        proof {
            assert(s@.take(i + 1).drop_last() =~= s@.take(i as int));
        }
        if c != '"' {
            push_char(&mut r, c);
        }
        i = i + 1;
    }
    proof {
        assert(s@.take(n as int) =~= s@);
    }
    r
}

} // verus!
