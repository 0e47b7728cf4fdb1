//! Escaping of template delimiters.  When a live file is brought under
//! management its content becomes a template, so every `{{` and `}}`
//! already in it must be escaped, or the next render would read it as
//! template syntax.
use vstd::prelude::*;
use crate::text::{str_chars, chars_string};

verus! {

/// The sanitized form of `s`: every `{{` becomes `\{{` and every `}}`
/// becomes `\}}`, scanning left to right without overlap.
pub open spec fn sanitize_text(s: Seq<char>) -> Seq<char>
    decreases s.len(),
{
    if s.len() >= 2 && s[0] == '{' && s[1] == '{' {
        seq!['\\', '{', '{'] + sanitize_text(s.skip(2))
    } else if s.len() >= 2 && s[0] == '}' && s[1] == '}' {
        seq!['\\', '}', '}'] + sanitize_text(s.skip(2))
    } else if s.len() == 0 {
        Seq::empty()
    } else {
        seq![s[0]] + sanitize_text(s.skip(1))
    }
}

/// `s` holds neither `{{` nor `}}`.
pub open spec fn has_no_delimiters(s: Seq<char>) -> bool {
    forall|i: int|
        0 <= i < s.len() - 1 ==> !((#[trigger] s[i] == '{' && s[i + 1] == '{') || (s[i] == '}'
            && s[i + 1] == '}'))
}

/// Sanitization leaves delimiter-free text unchanged.
pub proof fn lemma_sanitize_no_delimiters(s: Seq<char>)
    requires
        has_no_delimiters(s),
    ensures
        sanitize_text(s) == s,
    decreases s.len(),
{
    if s.len() == 0 {
        assert(sanitize_text(s) =~= s);
    } else {
        assert(has_no_delimiters(s.skip(1))) by {
            assert(forall|i: int|
                0 <= i < s.skip(1).len() - 1 ==> #[trigger] s.skip(1)[i] == s[i + 1] && s.skip(
                    1,
                )[i + 1] == s[i + 2]);
        }
        lemma_sanitize_no_delimiters(s.skip(1));
        assert(!(s.len() >= 2 && s[0] == '{' && s[1] == '{') && !(s.len() >= 2 && s[0] == '}'
            && s[1] == '}')) by {
            if s.len() >= 2 {
                assert(!((s[0int] == '{' && s[1int] == '{') || (s[0int] == '}' && s[1int] == '}')));
            }
        }
        assert(sanitize_text(s) == seq![s[0]] + s.skip(1));
        assert(seq![s[0]] + s.skip(1) =~= s);
    }
}

/// The content of a newly added template: the original text with every
/// template delimiter escaped.
pub fn sanitize_file(content: &str) -> (r: String)
    ensures
        r@ == sanitize_text(content@),
{
    let s = str_chars(content);
    let mut out: Vec<char> = Vec::new();
    let mut i: usize = 0;
    let n = s.len();
    proof {
        assert(s@.skip(0) =~= s@);
        assert(out@ + sanitize_text(s@) =~= sanitize_text(s@));
    }
    while i < n
        invariant
            i <= n,
            n == s@.len(),
            sanitize_text(s@) == out@ + sanitize_text(s@.skip(i as int)),
        decreases n - i,
    {
        let two_more = i + 1 < n;
        if two_more && s[i] == '{' && s[i + 1] == '{' {
            proof {
                assert(s@.skip(i as int)[0] == '{');
                assert(s@.skip(i as int)[1] == '{');
                assert(s@.skip(i as int).skip(2) =~= s@.skip(i + 2));
                assert(sanitize_text(s@.skip(i as int)) == seq!['\\', '{', '{'] + sanitize_text(
                    s@.skip(i + 2),
                ));
            }
            out.push('\\');
            out.push('{');
            out.push('{');
            proof {
                assert(sanitize_text(s@) =~= out@ + sanitize_text(s@.skip(i + 2)));
            }
            i = i + 2;
        } else if two_more && s[i] == '}' && s[i + 1] == '}' {
            proof {
                assert(s@.skip(i as int)[0] == '}');
                assert(s@.skip(i as int)[1] == '}');
                assert(s@.skip(i as int).skip(2) =~= s@.skip(i + 2));
                assert(sanitize_text(s@.skip(i as int)) == seq!['\\', '}', '}'] + sanitize_text(
                    s@.skip(i + 2),
                ));
            }
            out.push('\\');
            out.push('}');
            out.push('}');
            proof {
                assert(sanitize_text(s@) =~= out@ + sanitize_text(s@.skip(i + 2)));
            }
            i = i + 2;
        } else {
            proof {
                assert(s@.skip(i as int)[0] == s@[i as int]);
                assert(s@.skip(i as int).len() >= 2 ==> s@.skip(i as int)[1] == s@[i + 1]);
                assert(s@.skip(i as int).skip(1) =~= s@.skip(i + 1));
                assert(sanitize_text(s@.skip(i as int)) == seq![s@[i as int]] + sanitize_text(
                    s@.skip(i + 1),
                ));
            }
            out.push(s[i]);
            proof {
                assert(sanitize_text(s@) =~= out@ + sanitize_text(s@.skip(i + 1)));
            }
            i = i + 1;
        }
    }
    assert(s@.skip(n as int) =~= Seq::<char>::empty());
    assert(sanitize_text(s@) =~= out@);
    chars_string(&out)
}

} // verus!
