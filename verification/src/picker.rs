use vstd::prelude::*;
use vstd::arithmetic::div_mod::{
    lemma_add_mod_noop_right, lemma_mod_add_multiples_vanish, lemma_mod_bound, lemma_mod_self_0,
    lemma_small_mod,
};

use crate::charset::{charset_seq, get_characters, Charset};
use crate::errors::ArtError;
use crate::rng::RandomSource;
use crate::text::{filter_alpha, sanatize_text, spec_trimmed, str_to_chars};

verus! {

/// The per-cell character policy, resolved once from the options: a literal
/// character, a sanitized text cycled indefinitely, or a uniformly random
/// pick from a charset.
pub enum CharPicker {
    Literal { ch: char },
    Stream { chars: Vec<char>, pos: usize },
    Random { charset: Vec<char>, rng: RandomSource },
}

impl CharPicker {
    /// A stream holds at least one character and a cursor inside it; a
    /// random picker holds at least one candidate.
    pub open spec fn wf(self) -> bool {
        match self {
            CharPicker::Literal { .. } => true,
            CharPicker::Stream { chars, pos } => chars@.len() > 0 && pos < chars@.len()
                && chars@.len() <= usize::MAX,
            CharPicker::Random { charset, .. } => charset@.len() > 0,
        }
    }

    /// The candidate characters the picker can ever hand out.
    pub open spec fn alphabet_seq(self) -> Seq<char> {
        match self {
            CharPicker::Literal { ch } => seq![ch],
            CharPicker::Stream { chars, .. } => chars@,
            CharPicker::Random { charset, .. } => charset@,
        }
    }
}

/// What the `i`-th request after state `p` returns: the literal character,
/// the `i`-th stream character counted cyclically from the cursor, or some
/// member of the charset.
pub open spec fn emits_at(p: CharPicker, i: int, c: char) -> bool {
    match p {
        CharPicker::Literal { ch } => c == ch,
        CharPicker::Stream { chars, pos } => c == chars@[(pos + i) % (chars@.len() as int)],
        CharPicker::Random { charset, .. } => charset@.contains(c),
    }
}

/// How a picker state `q` stands to `p` after `n` requests: a literal picker
/// is unchanged, a stream's cursor moved `n` places cyclically, and a random
/// picker kept its charset while its generator moved.
pub open spec fn picker_advanced(p: CharPicker, q: CharPicker, n: int) -> bool {
    match p {
        CharPicker::Literal { .. } => q == p,
        CharPicker::Stream { chars, pos } => q == (CharPicker::Stream {
            chars,
            pos: (((pos + n) % (chars@.len() as int)) as usize),
        }),
        CharPicker::Random { charset, .. } => match q {
            CharPicker::Random { charset: qc, .. } => qc@ == charset@,
            _ => false,
        },
    }
}

/// Advancing zero requests leaves the picker where it stands.
pub proof fn lemma_advanced_zero(p: CharPicker)
    requires
        p.wf(),
    ensures
        picker_advanced(p, p, 0),
{
    match p {
        CharPicker::Stream { chars, pos } => {
            lemma_small_mod(pos as nat, chars@.len() as nat);
        },
        _ => {},
    }
}

/// A picker advanced `k` requests and then one more stands advanced `k + 1`.
pub proof fn lemma_advanced_step(p0: CharPicker, p: CharPicker, q: CharPicker, k: int)
    requires
        p0.wf(),
        k >= 0,
        picker_advanced(p0, p, k),
        picker_advanced(p, q, 1),
    ensures
        picker_advanced(p0, q, k + 1),
{
    match p0 {
        CharPicker::Stream { chars, pos } => {
            let m = chars@.len() as int;
            lemma_mod_bound(pos + k, m);
            lemma_add_mod_noop_right(1, pos + k, m);
        },
        _ => {},
    }
}

/// Advancing preserves well-formedness.
pub proof fn lemma_advanced_wf(p0: CharPicker, p: CharPicker, k: int)
    requires
        p0.wf(),
        picker_advanced(p0, p, k),
    ensures
        p.wf(),
{
    match p0 {
        CharPicker::Stream { chars, pos } => {
            lemma_mod_bound(pos + k, chars@.len() as int);
        },
        _ => {},
    }
}

/// What an advanced picker emits next is what the state it advanced from
/// emits at request `k`.
pub proof fn lemma_emits_through(p0: CharPicker, p: CharPicker, k: int, c: char)
    requires
        p0.wf(),
        k >= 0,
        picker_advanced(p0, p, k),
        emits_at(p, 0, c),
    ensures
        emits_at(p0, k, c),
{
    match p0 {
        CharPicker::Stream { chars, pos } => {
            let m = chars@.len() as int;
            lemma_mod_bound(pos + k, m);
            lemma_small_mod(((pos + k) % m) as nat, m as nat);
        },
        _ => {},
    }
}

/// A text stream cycles: after as many further requests as the stream has
/// characters, it emits the same character again, from whatever request it
/// stands at.
pub proof fn lemma_stream_cycles(p: CharPicker, i: int, c: char)
    requires
        p.wf(),
        p is Stream,
        i >= 0,
    ensures
        emits_at(p, i, c) <==> emits_at(p, i + p.alphabet_seq().len(), c),
{
    match p {
        CharPicker::Stream { chars, pos } => {
            let m = chars@.len() as int;
            lemma_mod_add_multiples_vanish(pos + i, m);
        },
        _ => {},
    }
}

/// Whatever a picker emits, at any request, is in its alphabet.
pub proof fn lemma_emits_in_alphabet(p: CharPicker, i: int, c: char)
    requires
        p.wf(),
        i >= 0,
        emits_at(p, i, c),
    ensures
        p.alphabet_seq().contains(c),
{
    match p {
        CharPicker::Literal { ch } => {
            assert(seq![ch][0] == ch);
        },
        CharPicker::Stream { chars, pos } => {
            let m = chars@.len() as int;
            lemma_mod_bound(pos + i, m);
        },
        CharPicker::Random { .. } => {},
    }
}

impl CharPicker {
    /// The next character to draw: the literal character, the stream
    /// character under the cursor (the cursor then moves one place,
    /// wrapping), or a random member of the charset.
    pub fn next_char(&mut self) -> (c: char)
        requires
            old(self).wf(),
        ensures
            final(self).wf(),
            emits_at(*old(self), 0, c),
            picker_advanced(*old(self), *final(self), 1),
    {
        match self {
            CharPicker::Literal { ch } => *ch,
            CharPicker::Stream { chars, pos } => {
                let n = chars.len();
                let c = chars[*pos];
                proof {
                    lemma_small_mod(*pos as nat, chars@.len() as nat);
                    if *pos + 1 == chars@.len() {
                        lemma_mod_self_0(chars@.len() as int);
                    } else {
                        lemma_small_mod((*pos + 1) as nat, chars@.len() as nat);
                    }
                }
                if *pos + 1 == n {
                    *pos = 0;
                } else {
                    *pos = *pos + 1;
                }
                c
            },
            CharPicker::Random { charset, rng } => {
                let i = rng.index_below(charset.len());
                charset[i]
            },
        }
    }

    /// The picker's candidate characters as a vector, for measuring their
    /// glyph metrics.
    pub fn alphabet(&self) -> (r: Vec<char>)
        ensures
            r@ == self.alphabet_seq(),
    {
        match self {
            CharPicker::Literal { ch } => {
                let mut r: Vec<char> = Vec::new();
                r.push(*ch);
                proof {
                    assert(r@ =~= seq![*ch]);
                }
                r
            },
            CharPicker::Stream { chars, .. } => clone_chars(chars),
            CharPicker::Random { charset, .. } => clone_chars(charset),
        }
    }
}

/// A copy of a character vector.
fn clone_chars(v: &Vec<char>) -> (r: Vec<char>)
    ensures
        r@ == v@,
{
    let mut r: Vec<char> = Vec::new();
    let mut i: usize = 0;
    while i < v.len()
        invariant
            i <= v@.len(),
            r@ == v@.take(i as int),
        decreases v@.len() - i,
    {
        r.push(v[i]);
        proof {
            assert(r@ =~= v@.take(i + 1));
        }
        i = i + 1;
    }
    proof {
        assert(v@.take(v@.len() as int) =~= v@);
    }
    r
}

/// The charset the random mode draws from: a custom charset file's trimmed
/// contents when one is given, which entirely replaces the named charset;
/// otherwise the named charset's characters.
pub open spec fn resolved_charset(custom: Option<&str>, named: Charset) -> Seq<char> {
    match custom {
        Some(s) => spec_trimmed(s@),
        None => charset_seq(named),
    }
}

/// Whether text-stream mode applies: a text was given and sanitizing it
/// left at least one character.
pub open spec fn stream_available(text: Option<&str>) -> bool {
    match text {
        Some(t) => filter_alpha(t@).len() > 0,
        None => false,
    }
}

/// The characters the stream cycles over: the sanitized text.
pub open spec fn stream_chars_of(text: Option<&str>) -> Seq<char> {
    match text {
        Some(t) => filter_alpha(t@),
        None => Seq::empty(),
    }
}

/// Builds the character policy from the resolved options, by precedence:
/// a literal character first, then a text stream (when its sanitized text is
/// nonempty), then the random mode over the resolved charset. A charset that
/// resolves to nothing is `EmptyCharset`.
pub fn build_picker(
    character: Option<char>,
    text: Option<&str>,
    custom: Option<&str>,
    named: Charset,
    rng: RandomSource,
) -> (r: Result<CharPicker, ArtError>)
    ensures
        r is Ok ==> r->Ok_0.wf(),
        character matches Some(ch) ==> r == Ok::<CharPicker, ArtError>(
            CharPicker::Literal { ch },
        ),
        character is None && stream_available(text) ==> {
            &&& r is Ok
            &&& (r->Ok_0 matches CharPicker::Stream { chars, pos } && chars@ == stream_chars_of(
                text,
            ) && pos == 0)
        },
        character is None && !stream_available(text) ==> {
            &&& r is Ok <==> resolved_charset(custom, named).len() > 0
            &&& r is Ok ==> (r->Ok_0 matches CharPicker::Random { charset, .. } && charset@
                == resolved_charset(custom, named))
            &&& r is Err ==> r->Err_0 == ArtError::EmptyCharset
        },
{
    if let Some(ch) = character {
        return Ok(CharPicker::Literal { ch });
    }
    if let Some(t) = text {
        let sanitized = sanatize_text(t.to_owned());
        let chars = str_to_chars(sanitized.as_str());
        if chars.len() > 0 {
            return Ok(CharPicker::Stream { chars, pos: 0 });
        }
    }
    let charset = match custom {
        Some(s) => match crate::charset::custom_charset(s) {
            Ok(v) => v,
            Err(e) => {
                return Err(e);
            },
        },
        None => get_characters(named),
    };
    if charset.len() == 0 {
        return Err(ArtError::EmptyCharset);
    }
    Ok(CharPicker::Random { charset, rng })
}

} // verus!
