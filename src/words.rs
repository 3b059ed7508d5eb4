//! Words of an identifier, and joining words in each naming case.
use vstd::prelude::*;
use crate::case::Tag;
use crate::shape::{is_lower, is_upper};

verus! {

pub open spec fn lower_char(c: char) -> char {
    if is_upper(c) {
        ((c as u32) + 32) as char
    } else {
        c
    }
}

pub open spec fn upper_char(c: char) -> char {
    if is_lower(c) {
        ((c as u32) - 32) as char
    } else {
        c
    }
}

pub open spec fn lower_word(w: Seq<char>) -> Seq<char> {
    w.map_values(|c: char| lower_char(c))
}

pub open spec fn upper_word(w: Seq<char>) -> Seq<char> {
    w.map_values(|c: char| upper_char(c))
}

/// The first letter upper case, the rest lower case.
pub open spec fn capitalized(w: Seq<char>) -> Seq<char> {
    if w.len() == 0 {
        w
    } else {
        seq![upper_char(w[0])] + lower_word(w.drop_first())
    }
}

/// The parts joined with `sep` between each two.
pub open spec fn joined(parts: Seq<Seq<char>>, sep: Seq<char>) -> Seq<char>
    decreases parts.len(),
{
    if parts.len() == 0 {
        Seq::empty()
    } else if parts.len() == 1 {
        parts[0]
    } else {
        joined(parts.drop_last(), sep) + sep + parts.last()
    }
}

/// The pieces of `s` between the separators `sep`.
pub open spec fn split_at_sep(s: Seq<char>, sep: char) -> Seq<Seq<char>>
    decreases s.len(),
{
    if s.len() == 0 {
        seq![Seq::empty()]
    } else {
        let ws = split_at_sep(s.drop_last(), sep);
        if s.last() == sep {
            ws.push(Seq::empty())
        } else {
            ws.update(ws.len() - 1, ws.last().push(s.last()))
        }
    }
}

/// The pieces of `s` that start at its beginning and at each upper-case letter.
pub open spec fn split_before_upper(s: Seq<char>) -> Seq<Seq<char>>
    decreases s.len(),
{
    if s.len() == 0 {
        Seq::empty()
    } else {
        let ws = split_before_upper(s.drop_last());
        if ws.len() == 0 || is_upper(s.last()) {
            ws.push(seq![s.last()])
        } else {
            ws.update(ws.len() - 1, ws.last().push(s.last()))
        }
    }
}

/// The words of a token of case `tag`.
pub open spec fn words_of(tag: Tag, s: Seq<char>) -> Seq<Seq<char>> {
    match tag {
        Tag::ScreamingSnake | Tag::Snake => split_at_sep(s, '_'),
        Tag::Kebab => split_at_sep(s, '-'),
        _ => split_before_upper(s),
    }
}

pub open spec fn screaming_snake_of(ws: Seq<Seq<char>>) -> Seq<char> {
    joined(ws.map_values(|w: Seq<char>| upper_word(w)), seq!['_'])
}

pub open spec fn snake_of(ws: Seq<Seq<char>>) -> Seq<char> {
    joined(ws.map_values(|w: Seq<char>| lower_word(w)), seq!['_'])
}

pub open spec fn kebab_of(ws: Seq<Seq<char>>) -> Seq<char> {
    joined(ws.map_values(|w: Seq<char>| lower_word(w)), seq!['-'])
}

pub open spec fn pascal_of(ws: Seq<Seq<char>>) -> Seq<char> {
    joined(ws.map_values(|w: Seq<char>| capitalized(w)), Seq::empty())
}

pub open spec fn camel_of(ws: Seq<Seq<char>>) -> Seq<char> {
    if ws.len() == 0 {
        Seq::empty()
    } else {
        lower_word(ws[0]) + pascal_of(ws.drop_first())
    }
}

/// Replacing the last part changes only the end of the joined text.
proof fn lemma_joined_update_last(ws: Seq<Seq<char>>, sep: Seq<char>, c: char)
    requires
        ws.len() > 0,
    ensures
        joined(ws.update(ws.len() - 1, ws.last().push(c)), sep) == joined(ws, sep).push(c),
{
    let u = ws.update(ws.len() - 1, ws.last().push(c));
    if ws.len() > 1 {
        assert(u.drop_last() =~= ws.drop_last());
    }
    assert(joined(u, sep) =~= joined(ws, sep).push(c));
}

/// Joining splits back together.
pub proof fn lemma_split_at_sep_joined(s: Seq<char>, sep: char)
    ensures
        split_at_sep(s, sep).len() > 0,
        joined(split_at_sep(s, sep), seq![sep]) == s,
    decreases s.len(),
{
    if s.len() > 0 {
        let ws = split_at_sep(s.drop_last(), sep);
        lemma_split_at_sep_joined(s.drop_last(), sep);
        if s.last() == sep {
            assert(ws.push(Seq::<char>::empty()).drop_last() =~= ws);
            assert(joined(ws, seq![sep]) + seq![sep] + Seq::<char>::empty() =~= s);
        } else {
            lemma_joined_update_last(ws, seq![sep], s.last());
            assert(s.drop_last().push(s.last()) =~= s);
        }
    }
}

/// Every character of every piece of `s` is a character of `s` other than `sep`.
proof fn lemma_split_at_sep_chars(s: Seq<char>, sep: char, upper: bool)
    requires
        forall|k: int| 0 <= k < s.len() ==> #[trigger] s[k] == sep || case_fixed(s[k], upper),
    ensures
        forall|i: int, j: int|
            0 <= i < split_at_sep(s, sep).len() && 0 <= j < split_at_sep(s, sep)[i].len()
                ==> case_fixed(#[trigger] split_at_sep(s, sep)[i][j], upper),
    decreases s.len(),
{
    if s.len() > 0 {
        let t = s.drop_last();
        assert forall|k: int| 0 <= k < t.len() implies #[trigger] t[k] == sep || case_fixed(
            t[k],
            upper,
        ) by {
            assert(t[k] == s[k]);
        }
        lemma_split_at_sep_chars(t, sep, upper);
        lemma_split_at_sep_joined(t, sep);
        assert(s[s.len() - 1] == sep || case_fixed(s[s.len() - 1], upper));
    }
}

/// Upper-casing (`upper`) or lower-casing leaves `c` as it is.
pub open spec fn case_fixed(c: char, upper: bool) -> bool {
    if upper {
        !is_lower(c)
    } else {
        !is_upper(c)
    }
}

proof fn lemma_words_fixed(ws: Seq<Seq<char>>, upper: bool)
    requires
        forall|i: int, j: int|
            0 <= i < ws.len() && 0 <= j < ws[i].len() ==> case_fixed(#[trigger] ws[i][j], upper),
    ensures
        upper ==> ws.map_values(|w: Seq<char>| upper_word(w)) == ws,
        !upper ==> ws.map_values(|w: Seq<char>| lower_word(w)) == ws,
{
    if upper {
        assert forall|i: int| 0 <= i < ws.len() implies upper_word(ws[i]) == ws[i] by {
            assert(upper_word(ws[i]) =~= ws[i]);
        }
        assert(ws.map_values(|w: Seq<char>| upper_word(w)) =~= ws);
    } else {
        assert forall|i: int| 0 <= i < ws.len() implies lower_word(ws[i]) == ws[i] by {
            assert(lower_word(ws[i]) =~= ws[i]);
        }
        assert(ws.map_values(|w: Seq<char>| lower_word(w)) =~= ws);
    }
}

/// Splitting a separated string into words and re-casing them in the case they
/// already have gives the string back.
pub proof fn lemma_separated_round_trip(s: Seq<char>, sep: char, upper: bool)
    requires
        forall|k: int| 0 <= k < s.len() ==> #[trigger] s[k] == sep || case_fixed(s[k], upper),
    ensures
        upper ==> joined(split_at_sep(s, sep).map_values(|w: Seq<char>| upper_word(w)), seq![sep])
            == s,
        !upper ==> joined(split_at_sep(s, sep).map_values(|w: Seq<char>| lower_word(w)), seq![sep])
            == s,
{
    lemma_split_at_sep_chars(s, sep, upper);
    lemma_words_fixed(split_at_sep(s, sep), upper);
    lemma_split_at_sep_joined(s, sep);
}

/// The pieces of `s` split before each upper-case letter are non-empty, joined
/// they give `s` back, each starts with `s[0]` or an upper-case letter, and no
/// other of their characters is upper case.
pub proof fn lemma_split_before_upper(s: Seq<char>)
    ensures
        joined(split_before_upper(s), Seq::empty()) == s,
        split_before_upper(s).len() == 0 <==> s.len() == 0,
        s.len() > 0 ==> split_before_upper(s)[0][0] == s[0],
        forall|i: int|
            0 <= i < split_before_upper(s).len() ==> (#[trigger] split_before_upper(s)[i]).len()
                > 0,
        forall|i: int| 0 < i < split_before_upper(s).len() ==> is_upper(#[trigger] split_before_upper(s)[i][0]),
        forall|i: int, j: int|
            0 <= i < split_before_upper(s).len() && 0 < j < split_before_upper(s)[i].len()
                ==> !is_upper(#[trigger] split_before_upper(s)[i][j]),
    decreases s.len(),
{
    if s.len() > 0 {
        let t = s.drop_last();
        let ws = split_before_upper(t);
        let c = s.last();
        lemma_split_before_upper(t);
        if ws.len() == 0 || is_upper(c) {
            let u = ws.push(seq![c]);
            assert(u.drop_last() =~= ws);
            if ws.len() == 0 {
                assert(s =~= seq![c]);
            } else {
                assert(joined(ws, Seq::empty()) + Seq::<char>::empty() + seq![c] =~= s);
            }
        } else {
            lemma_joined_update_last(ws, Seq::empty(), c);
            assert(t.push(c) =~= s);
            assert(t[0] == s[0]);
        }
    }
}

/// Joining after the first part.
proof fn lemma_joined_first(ws: Seq<Seq<char>>, sep: Seq<char>)
    requires
        ws.len() > 1,
    ensures
        joined(ws, sep) == ws[0] + sep + joined(ws.drop_first(), sep),
    decreases ws.len(),
{
    if ws.len() == 2 {
        assert(ws.drop_last() =~= seq![ws[0]]);
        assert(ws.drop_first() =~= seq![ws[1]]);
        assert(joined(ws.drop_last(), sep) == ws[0]);
        assert(joined(ws.drop_first(), sep) == ws[1]);
        assert(ws.last() == ws[1]);
    } else {
        lemma_joined_first(ws.drop_last(), sep);
        assert(ws.drop_last().drop_first() =~= ws.drop_first().drop_last());
        assert(ws.drop_first().last() == ws.last());
        assert(joined(ws, sep) =~= ws[0] + sep + joined(ws.drop_first(), sep));
    }
}

/// Splitting a camel or pascal case string into words and re-casing them in the
/// case it already has gives the string back.
pub proof fn lemma_joined_round_trip(s: Seq<char>)
    requires
        s.len() > 0,
    ensures
        is_upper(s[0]) ==> pascal_of(split_before_upper(s)) == s,
        is_lower(s[0]) ==> camel_of(split_before_upper(s)) == s,
{
    let ws = split_before_upper(s);
    lemma_split_before_upper(s);
    let cap = ws.map_values(|w: Seq<char>| capitalized(w));
    assert forall|i: int| 0 < i < ws.len() implies capitalized(ws[i]) == ws[i] by {
        assert(capitalized(ws[i]) =~= ws[i]);
    }
    if is_upper(s[0]) {
        assert(capitalized(ws[0]) =~= ws[0]);
        assert(cap =~= ws);
    }
    if is_lower(s[0]) {
        let rest = ws.drop_first();
        assert(rest.map_values(|w: Seq<char>| capitalized(w)) =~= rest);
        assert(lower_word(ws[0]) =~= ws[0]);
        if ws.len() > 1 {
            lemma_joined_first(ws, Seq::empty());
            assert(ws[0] + Seq::<char>::empty() + joined(rest, Seq::empty()) =~= ws[0] + joined(
                rest,
                Seq::empty(),
            ));
        } else {
            assert(rest.len() == 0);
            assert(ws[0] + joined(rest, Seq::empty()) =~= ws[0]);
        }
    }
}

} // verus!
