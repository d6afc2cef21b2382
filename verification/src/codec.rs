//! The key codec: reversible escaping of attribute keys so they are safe to
//! use as field names in a nested document, where `.` and the escape leader
//! `$` are structurally significant.

use crate::errors::StoreError;
use vstd::prelude::*;

verus! {

/// One encoded key character: the escape leader and the structural separator
/// each become a two-character leader+marker sequence; every other character
/// passes through unchanged.
pub open spec fn encode_char(c: char) -> Seq<char> {
    if c == '$' {
        seq!['$', 'd']
    } else if c == '.' {
        seq!['$', 'p']
    } else {
        seq![c]
    }
}

/// The codec-encoded form of a key.
pub open spec fn encoded(s: Seq<char>) -> Seq<char>
    decreases s.len(),
{
    if s.len() == 0 {
        Seq::empty()
    } else {
        encode_char(s[0]) + encoded(s.skip(1))
    }
}

/// Whether the decoder accepts a string: every escape leader that is followed
/// by anything is followed by a recognized marker. A leader at the very end is
/// tolerated; the scan ends inside its escape and drops it.
pub open spec fn decodable(s: Seq<char>) -> bool
    decreases s.len(),
{
    if s.len() == 0 {
        true
    } else if s[0] == '$' {
        s.len() == 1 || ((s[1] == 'd' || s[1] == 'p') && decodable(s.skip(2)))
    } else {
        decodable(s.skip(1))
    }
}

/// What the decoder emits (meaningful on decodable strings).
pub open spec fn decoded(s: Seq<char>) -> Seq<char>
    decreases s.len(),
{
    if s.len() == 0 {
        Seq::empty()
    } else if s[0] == '$' {
        if s.len() == 1 {
            Seq::empty()
        } else if s[1] == 'd' {
            seq!['$'] + decoded(s.skip(2))
        } else if s[1] == 'p' {
            seq!['.'] + decoded(s.skip(2))
        } else {
            decoded(s.skip(2))
        }
    } else {
        seq![s[0]] + decoded(s.skip(1))
    }
}

/// Relies on std's `String::push`: appends one character at the end.
#[verifier::external_body]
fn push_char(s: &mut String, c: char)
    ensures
        final(s)@ == old(s)@.push(c),
{
    s.push(c);
}

/// Encodes an attribute key for use as a field name in a nested document:
/// every `$` becomes `$d` and every `.` becomes `$p`.
pub fn encode(s: &str) -> (r: String)
    ensures
        r@ == encoded(s@),
{
    let n = s.unicode_len();
    let mut out = String::new();
    let mut i: usize = 0;
    proof {
        assert(s@.skip(0) =~= s@);
        assert(Seq::<char>::empty() + encoded(s@) =~= encoded(s@));
    }
    while i < n
        invariant
            n == s@.len(),
            i <= n,
            encoded(s@) == out@ + encoded(s@.skip(i as int)),
        decreases n - i,
    {
        let c = s.get_char(i);
        let ghost prev = out@;
        let ghost tail = s@.skip(i as int);
        proof {
            assert(tail[0] == c);
            assert(tail.skip(1) =~= s@.skip(i as int + 1));
        }
        if c == '$' {
            push_char(&mut out, '$');
            push_char(&mut out, 'd');
        } else if c == '.' {
            push_char(&mut out, '$');
            push_char(&mut out, 'p');
        } else {
            push_char(&mut out, c);
        }
        proof {
            let rest = encoded(s@.skip(i as int + 1));
            assert(out@ =~= prev + encode_char(c));
            assert(encoded(tail) == encode_char(c) + rest);
            assert((prev + encode_char(c)) + rest =~= prev + (encode_char(c) + rest));
        }
        i = i + 1;
    }
    proof {
        assert(s@.skip(n as int) =~= Seq::<char>::empty());
        assert(out@ + Seq::<char>::empty() =~= out@);
    }
    out
}

/// Decodes an encoded attribute key, reversing `encode`. Scanning left to
/// right, an escape leader enters escape mode and the next character selects
/// which literal to re-emit; an unrecognized marker after a leader means the
/// data was not produced by this codec and is a `Validation` error.
pub fn decode(s: &str) -> (r: Result<String, StoreError>)
    ensures
        r is Ok <==> decodable(s@),
        r matches Ok(out) ==> out@ == decoded(s@),
        r matches Err(e) ==> e == StoreError::Validation,
{
    let n = s.unicode_len();
    let mut out = String::new();
    let mut op = false;
    let mut i: usize = 0;
    proof {
        assert(s@.skip(0) =~= s@);
        assert(Seq::<char>::empty() + decoded(s@) =~= decoded(s@));
    }
    while i < n
        invariant
            n == s@.len(),
            i <= n,
            op ==> 1 <= i && s@[i as int - 1] == '$',
            !op ==> decoded(s@) == out@ + decoded(s@.skip(i as int)),
            !op ==> decodable(s@) == decodable(s@.skip(i as int)),
            op ==> decoded(s@) == out@ + decoded(s@.skip(i as int - 1)),
            op ==> decodable(s@) == decodable(s@.skip(i as int - 1)),
        decreases n - i,
    {
        let c = s.get_char(i);
        let ghost prev = out@;
        if op {
            let ghost tail = s@.skip(i as int - 1);
            proof {
                assert(tail[0] == '$');
                assert(tail.len() >= 2);
                assert(tail[1] == c);
                assert(tail.skip(2) =~= s@.skip(i as int + 1));
            }
            if c == 'd' {
                push_char(&mut out, '$');
                proof {
                    let rest = decoded(s@.skip(i as int + 1));
                    assert(out@ =~= prev + seq!['$']);
                    assert(decoded(tail) == seq!['$'] + rest);
                    assert((prev + seq!['$']) + rest =~= prev + (seq!['$'] + rest));
                }
            } else if c == 'p' {
                push_char(&mut out, '.');
                proof {
                    let rest = decoded(s@.skip(i as int + 1));
                    assert(out@ =~= prev + seq!['.']);
                    assert(decoded(tail) == seq!['.'] + rest);
                    assert((prev + seq!['.']) + rest =~= prev + (seq!['.'] + rest));
                }
            } else {
                proof {
                    assert(!decodable(tail));
                }
                return Err(StoreError::Validation);
            }
            op = false;
        } else {
            let ghost tail = s@.skip(i as int);
            proof {
                assert(tail[0] == c);
                assert(tail.skip(1) =~= s@.skip(i as int + 1));
            }
            if c == '$' {
                op = true;
            } else {
                push_char(&mut out, c);
                proof {
                    let rest = decoded(s@.skip(i as int + 1));
                    assert(out@ =~= prev + seq![c]);
                    assert(decoded(tail) == seq![c] + rest);
                    assert((prev + seq![c]) + rest =~= prev + (seq![c] + rest));
                }
            }
        }
        i = i + 1;
    }
    proof {
        if op {
            let tail = s@.skip(n as int - 1);
            assert(tail.len() == 1);
            assert(tail[0] == '$');
            assert(out@ + decoded(tail) =~= out@);
        } else {
            assert(s@.skip(n as int) =~= Seq::<char>::empty());
            assert(out@ + Seq::<char>::empty() =~= out@);
        }
    }
    Ok(out)
}

/// Codec round-trip: decoding inverts encoding, for every key.
pub proof fn lemma_decode_encode(s: Seq<char>)
    ensures
        decodable(encoded(s)),
        decoded(encoded(s)) == s,
    decreases s.len(),
{
    if s.len() == 0 {
    } else {
        lemma_decode_encode(s.skip(1));
        let e = encoded(s);
        let rest = encoded(s.skip(1));
        assert(e == encode_char(s[0]) + rest);
        if s[0] == '$' || s[0] == '.' {
            let m = if s[0] == '$' { 'd' } else { 'p' };
            let lit = s[0];
            assert(e[0] == '$');
            assert(e.len() >= 2);
            assert(e[1] == m);
            assert(e.skip(2) =~= rest);
            assert(decoded(e) == seq![lit] + decoded(rest));
            assert(seq![lit] + s.skip(1) =~= s);
        } else {
            assert(e[0] == s[0]);
            assert(e.skip(1) =~= rest);
            assert(decoded(e) == seq![s[0]] + decoded(rest));
            assert(seq![s[0]] + s.skip(1) =~= s);
        }
    }
}

/// Encoding is injective: no two distinct keys share an encoded form.
pub proof fn lemma_encode_injective(a: Seq<char>, b: Seq<char>)
    requires
        encoded(a) == encoded(b),
    ensures
        a == b,
{
    lemma_decode_encode(a);
    lemma_decode_encode(b);
}

} // verus!
