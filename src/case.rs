//! Style tags and classified tokens.
use vstd::prelude::*;
use vstd::string::StrSliceExecFns;
use vstd::utf8::is_ascii_chars;
use crate::shape::{
    any_shape, camel_shape, from_first_upper, has_upper, is_camel, is_kebab, is_pascal,
    is_screaming_snake, is_snake, kebab_shape, lemma_shapes_are_ascii, pascal_shape,
    screaming_snake_shape, snake_shape,
};

verus! {

/// One of the option codes `S`, `s`, `k`, `c`, `h`, `p`.
#[derive(Clone, Copy, PartialEq, Eq, Structural, Debug)]
pub enum Tag {
    ScreamingSnake,
    Snake,
    Kebab,
    Camel,
    Hungarian,
    Pascal,
}

/// The one-character code of a tag.
pub open spec fn tag_char(t: Tag) -> char {
    match t {
        Tag::ScreamingSnake => 'S',
        Tag::Snake => 's',
        Tag::Kebab => 'k',
        Tag::Camel => 'c',
        Tag::Hungarian => 'h',
        Tag::Pascal => 'p',
    }
}

/// The tag that an option string names, if any.
pub open spec fn spec_tag_of(s: Seq<char>) -> Option<Tag> {
    if s == seq!['S'] {
        Some(Tag::ScreamingSnake)
    } else if s == seq!['s'] {
        Some(Tag::Snake)
    } else if s == seq!['k'] {
        Some(Tag::Kebab)
    } else if s == seq!['c'] {
        Some(Tag::Camel)
    } else if s == seq!['h'] {
        Some(Tag::Hungarian)
    } else if s == seq!['p'] {
        Some(Tag::Pascal)
    } else {
        None
    }
}

/// An option string names a tag exactly when it is that tag's code.
pub proof fn lemma_tag_of_code(s: Seq<char>, t: Tag)
    ensures
        spec_tag_of(s) == Some(t) <==> s == seq![tag_char(t)],
{
    assert(seq!['S'][0] == 'S');
    assert(seq!['s'][0] == 's');
    assert(seq!['k'][0] == 'k');
    assert(seq!['c'][0] == 'c');
    assert(seq!['h'][0] == 'h');
    assert(seq!['p'][0] == 'p');
    assert(seq![tag_char(t)][0] == tag_char(t));
}

pub fn tag_of(s: &str) -> (r: Option<Tag>)
    ensures
        r == spec_tag_of(s@),
        r matches Some(t) ==> s@ == seq![tag_char(t)],
{
    if s.unicode_len() != 1 {
        return None;
    }
    let c = s.get_char(0);
    proof {
        assert(s@ =~= seq![c]);
    }
    if c == 'S' {
        Some(Tag::ScreamingSnake)
    } else if c == 's' {
        Some(Tag::Snake)
    } else if c == 'k' {
        Some(Tag::Kebab)
    } else if c == 'c' {
        Some(Tag::Camel)
    } else if c == 'h' {
        Some(Tag::Hungarian)
    } else if c == 'p' {
        Some(Tag::Pascal)
    } else {
        None
    }
}

/// The shape that a tag selects; `h` selects camel-shaped tokens.
pub open spec fn has_shape(t: Tag, s: Seq<char>) -> bool {
    match t {
        Tag::ScreamingSnake => screaming_snake_shape(s),
        Tag::Snake => snake_shape(s),
        Tag::Kebab => kebab_shape(s),
        Tag::Camel | Tag::Hungarian => camel_shape(s),
        Tag::Pascal => pascal_shape(s),
    }
}

/// The case of a token: the first shape it has, in the order screaming snake,
/// snake, kebab, camel, pascal.
pub open spec fn classify_tag(s: Seq<char>) -> Tag {
    if screaming_snake_shape(s) {
        Tag::ScreamingSnake
    } else if snake_shape(s) {
        Tag::Snake
    } else if kebab_shape(s) {
        Tag::Kebab
    } else if camel_shape(s) {
        Tag::Camel
    } else {
        Tag::Pascal
    }
}

/// A token tagged with its naming case.
#[derive(Clone, PartialEq, Eq, Debug)]
pub enum NamingCase {
    ScreamingSnake(String),
    Snake(String),
    Kebab(String),
    Camel(String),
    Pascal(String),
}

impl NamingCase {
    pub open spec fn tag(self) -> Tag {
        match self {
            NamingCase::ScreamingSnake(_) => Tag::ScreamingSnake,
            NamingCase::Snake(_) => Tag::Snake,
            NamingCase::Kebab(_) => Tag::Kebab,
            NamingCase::Camel(_) => Tag::Camel,
            NamingCase::Pascal(_) => Tag::Pascal,
        }
    }

    pub open spec fn text(self) -> Seq<char> {
        match self {
            NamingCase::ScreamingSnake(s) => s@,
            NamingCase::Snake(s) => s@,
            NamingCase::Kebab(s) => s@,
            NamingCase::Camel(s) => s@,
            NamingCase::Pascal(s) => s@,
        }
    }

    /// The token has the shape of its case.
    pub open spec fn wf(self) -> bool {
        has_shape(self.tag(), self.text())
    }

    /// The token as it was written.
    pub fn as_str(&self) -> (r: &str)
        ensures
            r@ == self.text(),
    {
        match self {
            NamingCase::ScreamingSnake(s) => s.as_str(),
            NamingCase::Snake(s) => s.as_str(),
            NamingCase::Kebab(s) => s.as_str(),
            NamingCase::Camel(s) => s.as_str(),
            NamingCase::Pascal(s) => s.as_str(),
        }
    }

    /// The token as it was written.
    pub fn to_string(&self) -> (r: String)
        ensures
            r@ == self.text(),
    {
        String::from_str(self.as_str())
    }
}

/// Tags `raw` with the first naming case whose shape it has.
pub fn classify(raw: &str) -> (r: NamingCase)
    requires
        any_shape(raw@),
    ensures
        r.tag() == classify_tag(raw@),
        r.text() == raw@,
        r.wf(),
{
    proof {
        lemma_shapes_are_ascii(raw@);
    }
    let s = String::from_str(raw);
    if is_screaming_snake(raw) {
        NamingCase::ScreamingSnake(s)
    } else if is_snake(raw) {
        NamingCase::Snake(s)
    } else if is_kebab(raw) {
        NamingCase::Kebab(s)
    } else if is_camel(raw) {
        NamingCase::Camel(s)
    } else {
        NamingCase::Pascal(s)
    }
}

/// On ASCII text, where `\d` is `[0-9]`, relies on
/// naming_lib::from_hungarian_notation: a camel case identifier with an
/// upper-case letter loses its first word (`[a-z]+\d*`) and comes back as pascal
/// case; anything else comes back invalid.
#[verifier::external_body]
fn hungarian_rest(s: &str) -> (r: Option<String>)
    requires
        is_ascii_chars(s@),
    ensures
        r.is_some() == (camel_shape(s@) && has_upper(s@)),
        r matches Some(rest) ==> rest@ == from_first_upper(s@),
{
    match naming_lib::from_hungarian_notation(s) {
        naming_lib::NamingCase::Pascal(rest) => Some(rest),
        _ => None,
    }
}

/// The case and text of `raw` read as Hungarian notation: a camel case token with
/// an upper-case letter loses its lower-case type prefix and becomes pascal case;
/// a token without one is classified as it stands.
pub open spec fn hungarian_view(raw: Seq<char>) -> (Tag, Seq<char>) {
    if camel_shape(raw) && has_upper(raw) {
        (Tag::Pascal, from_first_upper(raw))
    } else {
        (classify_tag(raw), raw)
    }
}

/// Reads a camel case token as Hungarian notation.
pub fn classify_hungarian(raw: &str) -> (r: NamingCase)
    requires
        camel_shape(raw@),
    ensures
        (r.tag(), r.text()) == hungarian_view(raw@),
        r.wf(),
{
    proof {
        lemma_shapes_are_ascii(raw@);
    }
    match hungarian_rest(raw) {
        Some(rest) => {
            proof {
                crate::shape::lemma_camel_rest_is_pascal(raw@);
            }
            NamingCase::Pascal(rest)
        },
        None => classify(raw),
    }
}

} // verus!
