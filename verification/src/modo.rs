//! The program's start-up choice: join a room or host one.
use vstd::prelude::*;
use crate::text::{
    all_whitespace, chars_of, is_unicode_whitespace, lemma_trim_blank, trim, trim_spec,
};

verus! {

/// Whether this side joins a room or hosts one.
#[derive(Clone, Copy, Debug, PartialEq, Eq, Structural)]
pub enum Modo {
    Cliente,
    Servidor,
}

/// The mode that an answer picks: one starting with `s` or `S` hosts; one
/// starting with `c` or `C`, or one of whitespace only, joins; any other is
/// refused.
pub open spec fn modo_spec(s: Seq<char>) -> Option<Modo> {
    if s.len() > 0 && (s[0] == 's' || s[0] == 'S') {
        Some(Modo::Servidor)
    } else if (s.len() > 0 && (s[0] == 'c' || s[0] == 'C')) || trim_spec(s).len() == 0 {
        Some(Modo::Cliente)
    } else {
        None
    }
}

/// `a` and `b` are the same character up to ASCII case.
pub open spec fn same_ignoring_ascii_case(a: char, b: char) -> bool {
    let (x, y) = (a as u32, b as u32);
    ||| a == b
    ||| 65 <= x <= 90 && y == x + 32
    ||| 65 <= y <= 90 && x == y + 32
}

/// `s` and `t` read the same up to ASCII case (as `s.to_ascii_lowercase()`
/// and `s.to_ascii_uppercase()` do).
pub open spec fn same_text_ignoring_ascii_case(s: Seq<char>, t: Seq<char>) -> bool {
    &&& s.len() == t.len()
    &&& forall|i: int| 0 <= i < s.len() ==> same_ignoring_ascii_case(#[trigger] s[i], t[i])
}

/// The answers and their modes: one starting with `s` or `S` hosts, one
/// starting with `c` or `C` joins, one made only of whitespace (of any
/// length, the empty answer included) joins, and any other is refused.
pub proof fn lemma_modo_answers(s: Seq<char>)
    ensures
        s.len() > 0 && (s[0] == 's' || s[0] == 'S') ==> modo_spec(s) == Some(Modo::Servidor),
        s.len() > 0 && (s[0] == 'c' || s[0] == 'C') ==> modo_spec(s) == Some(Modo::Cliente),
        all_whitespace(s) ==> modo_spec(s) == Some(Modo::Cliente),
        !(s.len() > 0 && (s[0] == 's' || s[0] == 'S' || s[0] == 'c' || s[0] == 'C'))
            && !all_whitespace(s) ==> modo_spec(s) is None,
{
    lemma_trim_blank(s);
    if s.len() > 0 && (s[0] == 's' || s[0] == 'S') {
        assert(!is_unicode_whitespace(s[0]));
    }
}

/// ASCII case never changes the mode that an answer picks.
pub proof fn lemma_mode_ignores_ascii_case(s: Seq<char>, t: Seq<char>)
    requires
        same_text_ignoring_ascii_case(s, t),
    ensures
        modo_spec(s) == modo_spec(t),
{
    lemma_trim_blank(s);
    lemma_trim_blank(t);
    assert forall|i: int| 0 <= i < s.len() implies is_unicode_whitespace(#[trigger] s[i])
        == is_unicode_whitespace(t[i]) by {
        assert(same_ignoring_ascii_case(s[i], t[i]));
    }
    assert(all_whitespace(s) == all_whitespace(t)) by {
        if all_whitespace(s) {
            assert forall|i: int| 0 <= i < t.len() implies is_unicode_whitespace(#[trigger] t[i]) by {
                assert(is_unicode_whitespace(s[i]));
            }
        }
        if all_whitespace(t) {
            assert forall|i: int| 0 <= i < s.len() implies is_unicode_whitespace(#[trigger] s[i]) by {
                assert(is_unicode_whitespace(t[i]));
            }
        }
    }
    if s.len() > 0 {
        let (a, b) = (s[0], t[0]);
        assert(same_ignoring_ascii_case(a, b));
        assert(('s' as u32) == 115 && ('S' as u32) == 83 && ('c' as u32) == 99 && ('C' as u32)
            == 67);
        vstd::utf8::char_u32_cast(a, a as u32);
        vstd::utf8::char_u32_cast(b, b as u32);
        vstd::utf8::char_u32_cast('s', 115);
        vstd::utf8::char_u32_cast('S', 83);
        vstd::utf8::char_u32_cast('c', 99);
        vstd::utf8::char_u32_cast('C', 67);
        assert((a == 's' || a == 'S') == (b == 's' || b == 'S'));
        assert((a == 'c' || a == 'C') == (b == 'c' || b == 'C'));
    }
}

/// Once an answer is not blank, what follows it (the line ending, more
/// words) never changes the mode it picks.
pub proof fn lemma_mode_ignores_what_follows(s: Seq<char>, t: Seq<char>)
    requires
        trim_spec(s).len() != 0,
    ensures
        modo_spec(s + t) == modo_spec(s),
{
    lemma_trim_blank(s);
    lemma_trim_blank(s + t);
    let j = choose|j: int| 0 <= j < s.len() && !is_unicode_whitespace(s[j]);
    assert((s + t)[j] == s[j]);
    assert((s + t)[0] == s[0]);
}

impl Modo {
    /// The mode that `string` picks, or the message `"Modo inválido"`.
    pub fn from_string(string: String) -> (r: Result<Modo, &'static str>)
        ensures
            match r {
                Ok(m) => modo_spec(string@) == Some(m),
                Err(e) => modo_spec(string@) is None && e@ == "Modo inválido"@,
            },
    {
        let chars = chars_of(string.as_str());
        let first = if chars.len() > 0 {
            Some(chars[0])
        } else {
            None
        };
        if let Some(c) = first {
            if c == 's' || c == 'S' {
                return Ok(Modo::Servidor);
            }
        }
        let starts_c = match first {
            Some(c) => c == 'c' || c == 'C',
            None => false,
        };
        if starts_c {
            return Ok(Modo::Cliente);
        }
        let t = trim(string.as_str());
        if t.as_str().is_empty() {
            Ok(Modo::Cliente)
        } else {
            Err("Modo inválido")
        }
    }
}

} // verus!
