//! Shapes of identifiers in each naming case.
use vstd::prelude::*;
use vstd::utf8::is_ascii_chars;

verus! {

pub open spec fn is_lower(c: char) -> bool {
    'a' <= c && c <= 'z'
}

pub open spec fn is_upper(c: char) -> bool {
    'A' <= c && c <= 'Z'
}

pub open spec fn is_digit(c: char) -> bool {
    '0' <= c && c <= '9'
}

pub open spec fn is_letter_of(c: char, upper: bool) -> bool {
    if upper { is_upper(c) } else { is_lower(c) }
}

/// Position `i` of `s` fits words of letters of one case, each followed by digits,
/// joined by `sep`.
pub open spec fn separated_at(s: Seq<char>, i: int, upper: bool, sep: char) -> bool {
    let c = s[i];
    if is_letter_of(c, upper) {
        true
    } else if is_digit(c) {
        i + 1 == s.len() || is_digit(s[i + 1]) || s[i + 1] == sep
    } else {
        c == sep && i + 1 < s.len() && is_letter_of(s[i + 1], upper)
    }
}

/// `[A-Z]+\d*` or `[a-z]+\d*` words, joined by `sep`.
pub open spec fn separated_shape(s: Seq<char>, upper: bool, sep: char) -> bool {
    &&& s.len() > 0
    &&& is_letter_of(s[0], upper)
    &&& forall|i: int| 0 <= i < s.len() ==> #[trigger] separated_at(s, i, upper, sep)
}

/// Position `i` of `s` fits capitalised words `[A-Z][a-z]*\d*` written together.
pub open spec fn joined_at(s: Seq<char>, i: int) -> bool {
    let c = s[i];
    if is_lower(c) || is_upper(c) {
        true
    } else {
        is_digit(c) && (i + 1 == s.len() || is_digit(s[i + 1]) || is_upper(s[i + 1]))
    }
}

pub open spec fn joined_shape(s: Seq<char>, upper_first: bool) -> bool {
    &&& s.len() > 0
    &&& is_letter_of(s[0], upper_first)
    &&& forall|i: int| 0 <= i < s.len() ==> #[trigger] joined_at(s, i)
}

/// `^[A-Z]+\d*(_[A-Z]+\d*)*$`
pub open spec fn screaming_snake_shape(s: Seq<char>) -> bool {
    separated_shape(s, true, '_')
}

/// `^[a-z]+\d*(_[a-z]+\d*)*$`
pub open spec fn snake_shape(s: Seq<char>) -> bool {
    separated_shape(s, false, '_')
}

/// `^[a-z]+\d*(-[a-z]+\d*)*$`
pub open spec fn kebab_shape(s: Seq<char>) -> bool {
    separated_shape(s, false, '-')
}

/// `^[a-z]+\d*([A-Z][a-z]*\d*)*$`
pub open spec fn camel_shape(s: Seq<char>) -> bool {
    joined_shape(s, false)
}

/// `^([A-Z][a-z]*\d*)+$`
pub open spec fn pascal_shape(s: Seq<char>) -> bool {
    joined_shape(s, true)
}

/// The string has the shape of at least one naming case.
pub open spec fn any_shape(s: Seq<char>) -> bool {
    screaming_snake_shape(s) || snake_shape(s) || kebab_shape(s) || camel_shape(s)
        || pascal_shape(s)
}

pub open spec fn has_upper(s: Seq<char>) -> bool {
    exists|i: int| 0 <= i < s.len() && is_upper(#[trigger] s[i])
}

/// What is left of `s` from its first upper-case letter on.
pub open spec fn from_first_upper(s: Seq<char>) -> Seq<char>
    decreases s.len(),
{
    if s.len() == 0 || is_upper(s[0]) {
        s
    } else {
        from_first_upper(s.drop_first())
    }
}

/// On ASCII text, where `\d` is `[0-9]`, relies on naming_lib::is_screaming_snake, a match of `^[A-Z]+\d*(_[A-Z]+\d*)*$`.
#[verifier::external_body]
pub(crate) fn is_screaming_snake(s: &str) -> (r: bool)
    requires
        is_ascii_chars(s@),
    ensures
        r == screaming_snake_shape(s@),
{
    naming_lib::is_screaming_snake(s)
}

/// On ASCII text, where `\d` is `[0-9]`, relies on naming_lib::is_snake, a match of `^[a-z]+\d*(_[a-z]+\d*)*$`.
#[verifier::external_body]
pub(crate) fn is_snake(s: &str) -> (r: bool)
    requires
        is_ascii_chars(s@),
    ensures
        r == snake_shape(s@),
{
    naming_lib::is_snake(s)
}

/// On ASCII text, where `\d` is `[0-9]`, relies on naming_lib::is_kebab, a match of `^[a-z]+\d*(-[a-z]+\d*)*$`.
#[verifier::external_body]
pub(crate) fn is_kebab(s: &str) -> (r: bool)
    requires
        is_ascii_chars(s@),
    ensures
        r == kebab_shape(s@),
{
    naming_lib::is_kebab(s)
}

/// On ASCII text, where `\d` is `[0-9]`, relies on naming_lib::is_camel, a match of `^[a-z]+\d*([A-Z][a-z]*\d*)*$`.
#[verifier::external_body]
pub(crate) fn is_camel(s: &str) -> (r: bool)
    requires
        is_ascii_chars(s@),
    ensures
        r == camel_shape(s@),
{
    naming_lib::is_camel(s)
}

/// On ASCII text, where `\d` is `[0-9]`, relies on naming_lib::is_pascal, a match of `^([A-Z][a-z]*\d*)+$`.
#[verifier::external_body]
pub(crate) fn is_pascal(s: &str) -> (r: bool)
    requires
        is_ascii_chars(s@),
    ensures
        r == pascal_shape(s@),
{
    naming_lib::is_pascal(s)
}

/// Every shape is made of ASCII characters only.
pub proof fn lemma_shapes_are_ascii(s: Seq<char>)
    ensures
        screaming_snake_shape(s) ==> is_ascii_chars(s),
        snake_shape(s) ==> is_ascii_chars(s),
        kebab_shape(s) ==> is_ascii_chars(s),
        camel_shape(s) ==> is_ascii_chars(s),
        pascal_shape(s) ==> is_ascii_chars(s),
{
    if separated_shape(s, true, '_') || separated_shape(s, false, '_') || separated_shape(
        s,
        false,
        '-',
    ) {
        assert forall|i: int| 0 <= i < s.len() implies '\0' <= #[trigger] s[i] <= '\u{7f}' by {
            assert(separated_at(s, i, true, '_') || separated_at(s, i, false, '_') || separated_at(
                s,
                i,
                false,
                '-',
            ));
        }
    }
    if joined_shape(s, false) || joined_shape(s, true) {
        assert forall|i: int| 0 <= i < s.len() implies '\0' <= #[trigger] s[i] <= '\u{7f}' by {
            assert(joined_at(s, i));
        }
    }
}

/// A string that holds `_` or `-` has the shape of at most one of
/// screaming snake, snake and kebab case.
pub proof fn lemma_separated_shapes_exclusive(w: Seq<char>)
    requires
        exists|i: int| 0 <= i < w.len() && (w[i] == '_' || w[i] == '-'),
    ensures
        !(screaming_snake_shape(w) && snake_shape(w)),
        !(screaming_snake_shape(w) && kebab_shape(w)),
        !(snake_shape(w) && kebab_shape(w)),
{
    let i = choose|i: int| 0 <= i < w.len() && (w[i] == '_' || w[i] == '-');
    if snake_shape(w) && kebab_shape(w) {
        assert(separated_at(w, i, false, '_'));
        assert(separated_at(w, i, false, '-'));
    }
}

/// Camel and pascal case differ only in the case of the first letter: no string
/// has both shapes, and a string with either shape has the other once its first
/// letter changes case.
pub proof fn lemma_camel_pascal_first_letter(w: Seq<char>, first: char)
    requires
        w.len() > 0,
        is_lower(w[0]) && is_upper(first) || is_upper(w[0]) && is_lower(first),
    ensures
        !(camel_shape(w) && pascal_shape(w)),
        camel_shape(w) <==> pascal_shape(w.update(0, first)),
        pascal_shape(w) <==> camel_shape(w.update(0, first)),
{
    let v = w.update(0, first);
    assert forall|i: int| 0 <= i < w.len() implies joined_at(w, i) == joined_at(v, i) by {
        if i + 1 < w.len() {
            assert(v[i + 1] == w[i + 1] || i + 1 == 0);
        }
    }
    if camel_shape(w) || pascal_shape(w) {
        assert forall|i: int| 0 <= i < v.len() implies joined_at(v, i) by {
            assert(joined_at(w, i));
        }
    }
    if camel_shape(v) || pascal_shape(v) {
        assert forall|i: int| 0 <= i < w.len() implies joined_at(w, i) by {
            assert(joined_at(v, i));
        }
    }
}

/// Dropping the lower-case prefix of a camel case string that holds an
/// upper-case letter leaves a pascal case string.
pub proof fn lemma_camel_rest_is_pascal(w: Seq<char>)
    requires
        camel_shape(w),
        has_upper(w),
    ensures
        pascal_shape(from_first_upper(w)),
    decreases w.len(),
{
    let k = choose|k: int| 0 <= k < w.len() && is_upper(#[trigger] w[k]);
    lemma_suffix_keeps_joined(w, 0);
    lemma_from_first_upper_suffix(w, k);
}

proof fn lemma_suffix_keeps_joined(w: Seq<char>, d: int)
    requires
        0 <= d < w.len(),
        forall|i: int| 0 <= i < w.len() ==> #[trigger] joined_at(w, i),
    ensures
        forall|i: int| 0 <= i < w.len() - d ==> #[trigger] joined_at(w.skip(d), i),
{
    let v = w.skip(d);
    assert forall|i: int| 0 <= i < v.len() implies #[trigger] joined_at(v, i) by {
        assert(joined_at(w, i + d));
    }
}

proof fn lemma_from_first_upper_suffix(w: Seq<char>, k: int)
    requires
        0 <= k < w.len(),
        is_upper(w[k]),
        forall|i: int| 0 <= i < w.len() ==> #[trigger] joined_at(w, i),
    ensures
        pascal_shape(from_first_upper(w)),
    decreases w.len(),
{
    if is_upper(w[0]) {
    } else {
        assert(k > 0);
        let v = w.drop_first();
        lemma_suffix_keeps_joined(w, 1);
        assert(v[k - 1] == w[k]);
        lemma_from_first_upper_suffix(v, k - 1);
    }
}

} // verus!
