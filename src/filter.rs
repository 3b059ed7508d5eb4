//! Choosing the tokens whose case the user asked for.
use vstd::prelude::*;
use crate::case::{
    classify, classify_hungarian, classify_tag, has_shape, hungarian_view, lemma_tag_of_code,
    spec_tag_of, tag_char, tag_of, NamingCase, Tag,
};
use crate::shape::{
    any_shape, camel_shape, is_camel, is_lower, is_upper, lemma_camel_pascal_first_letter,
    lemma_shapes_are_ascii, pascal_shape, is_kebab, is_pascal, is_screaming_snake, is_snake,
};

verus! {

/// The error of a filter asked for both `h` and `c`.
pub const CONFLICT_MESSAGE: &'static str =
    "In option \"--filter\", at most one of the two, hungarian notation (h) and camel case (c) can appear.";

/// The option list names the tag whose code is `c`.
pub open spec fn names_option(options: Seq<&str>, c: char) -> bool {
    exists|i: int| 0 <= i < options.len() && #[trigger] options[i]@ == seq![c]
}

/// The options ask for Hungarian notation and camel case together.
pub open spec fn conflicting(options: Seq<&str>) -> bool {
    names_option(options, 'h') && names_option(options, 'c')
}

/// The tags that the options name, in their order; other options are left out.
pub open spec fn tags_of(options: Seq<&str>) -> Seq<Tag>
    decreases options.len(),
{
    if options.len() == 0 {
        Seq::empty()
    } else {
        let rest = tags_of(options.drop_last());
        match spec_tag_of(options.last()@) {
            Some(t) => rest.push(t),
            None => rest,
        }
    }
}

/// Keeps the tokens whose case was asked for, and turns them into classified tokens.
pub struct Filter {
    options: Vec<Tag>,
}

impl Filter {
    /// The tags the filter was made with.
    pub closed spec fn tags(self) -> Seq<Tag> {
        self.options@
    }

    pub open spec fn selects(self, t: Tag) -> bool {
        self.tags().contains(t)
    }

    /// `w` has the shape of a case that the filter selects.
    pub open spec fn accepts(self, w: Seq<char>) -> bool {
        exists|t: Tag| self.selects(t) && has_shape(t, w)
    }

    /// The tokens of `ws` that the filter accepts, in their order.
    pub open spec fn kept(self, ws: Seq<Seq<char>>) -> Seq<Seq<char>>
        decreases ws.len(),
    {
        if ws.len() == 0 {
            Seq::empty()
        } else {
            let rest = self.kept(ws.drop_last());
            if self.accepts(ws.last()) {
                rest.push(ws.last())
            } else {
                rest
            }
        }
    }

    /// The case and text that a kept token is given.
    pub open spec fn interpret(self, w: Seq<char>) -> (Tag, Seq<char>) {
        if self.selects(Tag::Hungarian) && camel_shape(w) {
            hungarian_view(w)
        } else {
            (classify_tag(w), w)
        }
    }

    pub fn new(options: &Vec<&str>) -> (r: Result<Filter, &'static str>)
        ensures
            r.is_err() == conflicting(options@),
            r matches Err(m) ==> m@ == CONFLICT_MESSAGE@,
            r matches Ok(f) ==> f.tags() == tags_of(options@),
            r matches Ok(f) ==> forall|t: Tag|
                f.selects(t) <==> #[trigger] names_option(options@, tag_char(t)),
    {
        if Filter::has_hungarian_camel_conflict(options) {
            return Err(CONFLICT_MESSAGE);
        }
        let mut tags: Vec<Tag> = Vec::new();
        let mut i: usize = 0;
        while i < options.len()
            invariant
                i <= options.len(),
                tags@ == tags_of(options@.take(i as int)),
                forall|t: Tag|
                    tags@.contains(t) <==> (exists|j: int|
                        0 <= j < i && #[trigger] options@[j]@ == seq![tag_char(t)]),
            decreases options.len() - i,
        {
            let got = tag_of(options[i]);
            let ghost before = tags@;
            proof {
                assert(options@.take(i + 1).drop_last() =~= options@.take(i as int));
            }
            match got {
                Some(t) => {
                    tags.push(t);
                },
                None => {},
            }
            proof {
                assert forall|u: Tag|
                    tags@.contains(u) <==> (exists|j: int|
                        0 <= j < i + 1 && #[trigger] options@[j]@ == seq![tag_char(u)]) by {
                    lemma_tag_of_code(options@[i as int]@, u);
                    if got == Some(u) {
                        assert(tags@.last() == u);
                    }
                    if tags@.contains(u) && !before.contains(u) {
                        let k = choose|k: int| 0 <= k < tags@.len() && tags@[k] == u;
                        if k < before.len() {
                            assert(before[k] == u);
                        }
                    }
                    if before.contains(u) {
                        let k = choose|k: int| 0 <= k < before.len() && before[k] == u;
                        assert(tags@[k] == u);
                    }
                    if got == Some(u) {
                        assert(options@[i as int]@ == seq![tag_char(u)]);
                    }
                    if options@[i as int]@ == seq![tag_char(u)] {
                        assert(got == Some(u));
                    }
                }
            }
            i = i + 1;
        }
        proof {
            assert(options@.take(options@.len() as int) =~= options@);
        }
        Ok(Filter { options: tags })
    }

    pub fn has_hungarian_camel_conflict(options: &Vec<&str>) -> (r: bool)
        ensures
            r == conflicting(options@),
    {
        let mut h = false;
        let mut c = false;
        let mut i: usize = 0;
        while i < options.len()
            invariant
                i <= options.len(),
                h == exists|j: int| 0 <= j < i && #[trigger] options@[j]@ == seq!['h'],
                c == exists|j: int| 0 <= j < i && #[trigger] options@[j]@ == seq!['c'],
            decreases options.len() - i,
        {
            proof {
                lemma_tag_of_code(options@[i as int]@, Tag::Hungarian);
                lemma_tag_of_code(options@[i as int]@, Tag::Camel);
            }
            match tag_of(options[i]) {
                Some(Tag::Hungarian) => {
                    h = true;
                },
                Some(Tag::Camel) => {
                    c = true;
                },
                _ => {},
            }
            i = i + 1;
        }
        h && c
    }
}

/// The text of each string.
pub open spec fn views(ws: Seq<String>) -> Seq<Seq<char>> {
    ws.map_values(|s: String| s@)
}

/// Whether `w` has the shape that `t` selects.
fn shape_matches(t: Tag, w: &str) -> (r: bool)
    ensures
        r == has_shape(t, w@),
{
    proof {
        lemma_shapes_are_ascii(w@);
    }
    if !w.is_ascii() {
        return false;
    }
    match t {
        Tag::ScreamingSnake => is_screaming_snake(w),
        Tag::Snake => is_snake(w),
        Tag::Kebab => is_kebab(w),
        Tag::Camel | Tag::Hungarian => is_camel(w),
        Tag::Pascal => is_pascal(w),
    }
}

impl Filter {
    /// Whether the filter accepts `w`; with no tags it accepts nothing.
    pub fn accepts_word(&self, w: &str) -> (r: bool)
        ensures
            r == self.accepts(w@),
    {
        let mut i: usize = 0;
        while i < self.options.len()
            invariant
                i <= self.options@.len(),
                forall|j: int| 0 <= j < i ==> !has_shape(#[trigger] self.options@[j], w@),
            decreases self.options@.len() - i,
        {
            let t = self.options[i];
            if shape_matches(t, w) {
                assert(self.selects(t));
                return true;
            }
            i = i + 1;
        }
        proof {
            if self.accepts(w@) {
                let t = choose|t: Tag| self.selects(t) && has_shape(t, w@);
                let j = choose|j: int| 0 <= j < self.options@.len() && self.options@[j] == t;
                assert(!has_shape(self.options@[j], w@));
            }
        }
        false
    }

    /// Keeps the words that have the shape of a selected case, in their order.
    pub fn filter_words_with_options(&self, words: Vec<String>) -> (r: Vec<String>)
        ensures
            views(r@) == self.kept(views(words@)),
    {
        let mut out: Vec<String> = Vec::new();
        let mut i: usize = 0;
        while i < words.len()
            invariant
                i <= words@.len(),
                views(out@) == self.kept(views(words@).take(i as int)),
            decreases words@.len() - i,
        {
            let ghost ws = views(words@);
            proof {
                assert(ws.take(i + 1).drop_last() =~= ws.take(i as int));
                assert(ws.take(i + 1).last() == words@[i as int]@);
            }
            if self.accepts_word(words[i].as_str()) {
                let w = words[i].clone();
                out.push(w);
                proof {
                    assert(views(out@) =~= self.kept(ws.take(i as int)).push(words@[i as int]@));
                }
            }
            i = i + 1;
        }
        proof {
            assert(views(words@).take(words@.len() as int) =~= views(words@));
        }
        out
    }

    /// Keeps the words that have the shape of a selected case and classifies them;
    /// with `h` selected, camel case words are read as Hungarian notation.
    pub fn to_naming_cases_from(&self, words: Vec<String>) -> (r: Vec<NamingCase>)
        ensures
            r@.len() == self.kept(views(words@)).len(),
            forall|i: int|
                0 <= i < r@.len() ==> (#[trigger] r@[i].tag(), r@[i].text()) == self.interpret(
                    self.kept(views(words@))[i],
                ) && r@[i].wf(),
    {
        let kept = self.filter_words_with_options(words);
        let hungarian = self.selects_hungarian();
        let mut out: Vec<NamingCase> = Vec::new();
        let mut i: usize = 0;
        while i < kept.len()
            invariant
                i <= kept@.len(),
                out@.len() == i,
                views(kept@) == self.kept(views(words@)),
                hungarian == self.selects(Tag::Hungarian),
                forall|j: int|
                    0 <= j < i ==> (#[trigger] out@[j].tag(), out@[j].text()) == self.interpret(
                        kept@[j]@,
                    ) && out@[j].wf(),
            decreases kept@.len() - i,
        {
            let w = kept[i].as_str();
            proof {
                assert(views(kept@)[i as int] == w@);
                self.lemma_kept_accepted(views(words@), i as int);
                lemma_accepted_has_shape(self.tags(), w@);
            }
            proof {
                lemma_shapes_are_ascii(w@);
            }
            let c = if hungarian && is_camel(w) {
                classify_hungarian(w)
            } else {
                classify(w)
            };
            out.push(c);
            i = i + 1;
        }
        out
    }

    fn selects_hungarian(&self) -> (r: bool)
        ensures
            r == self.selects(Tag::Hungarian),
    {
        let mut i: usize = 0;
        while i < self.options.len()
            invariant
                i <= self.options@.len(),
                forall|j: int| 0 <= j < i ==> #[trigger] self.options@[j] != Tag::Hungarian,
            decreases self.options@.len() - i,
        {
            if self.options[i] == Tag::Hungarian {
                return true;
            }
            i = i + 1;
        }
        false
    }

    proof fn lemma_kept_accepted(self, ws: Seq<Seq<char>>, i: int)
        requires
            0 <= i < self.kept(ws).len(),
        ensures
            self.accepts(self.kept(ws)[i]),
        decreases ws.len(),
    {
        let rest = self.kept(ws.drop_last());
        if i < rest.len() {
            self.lemma_kept_accepted(ws.drop_last(), i);
        }
    }

    /// Filtering twice keeps what filtering once keeps.
    pub proof fn lemma_kept_idempotent(self, ws: Seq<Seq<char>>)
        ensures
            self.kept(self.kept(ws)) == self.kept(ws),
        decreases ws.len(),
    {
        if ws.len() > 0 {
            self.lemma_kept_idempotent(ws.drop_last());
            let rest = self.kept(ws.drop_last());
            if self.accepts(ws.last()) {
                assert(rest.push(ws.last()).drop_last() =~= rest);
            }
        }
    }
}

/// Camel and pascal case differ only in the case of the first letter: a filter
/// that selects camel case alone keeps a word exactly when one that selects
/// pascal case alone keeps the word with its first letter made upper case, and
/// neither keeps a word whose first letter has the other case.
pub proof fn lemma_camel_pascal_filters(fc: Filter, fp: Filter, w: Seq<char>, first: char)
    requires
        forall|t: Tag| fc.selects(t) <==> t == Tag::Camel,
        forall|t: Tag| fp.selects(t) <==> t == Tag::Pascal,
        w.len() > 0,
        is_lower(w[0]),
        is_upper(first),
    ensures
        fc.kept(seq![w]).len() == fp.kept(seq![w.update(0, first)]).len(),
        fp.kept(seq![w]).len() == 0,
        fc.kept(seq![w.update(0, first)]).len() == 0,
{
    let v = w.update(0, first);
    lemma_camel_pascal_first_letter(w, first);
    assert(v[0] == first);
    assert(seq![w].drop_last() =~= Seq::<Seq<char>>::empty());
    assert(seq![v].drop_last() =~= Seq::<Seq<char>>::empty());
    assert(fc.accepts(w) == camel_shape(w)) by {
        if camel_shape(w) {
            assert(fc.selects(Tag::Camel) && has_shape(Tag::Camel, w));
        }
    }
    assert(fp.accepts(v) == pascal_shape(v)) by {
        if pascal_shape(v) {
            assert(fp.selects(Tag::Pascal) && has_shape(Tag::Pascal, v));
        }
    }
    assert(!fp.accepts(w));
    assert(!fc.accepts(v));
    assert(seq![w].last() == w);
    assert(seq![v].last() == v);
    assert(fc.kept(Seq::empty()).len() == 0);
    assert(fp.kept(Seq::empty()).len() == 0);
    assert(fc.kept(seq![w]).len() == if camel_shape(w) { 1int } else { 0 });
    assert(fp.kept(seq![v]).len() == if pascal_shape(v) { 1int } else { 0 });
    assert(fp.kept(seq![w]).len() == 0);
    assert(fc.kept(seq![v]).len() == 0);
}

/// A word that some selected tag accepts has the shape of a naming case.
proof fn lemma_accepted_has_shape(tags: Seq<Tag>, w: Seq<char>)
    requires
        exists|t: Tag| tags.contains(t) && has_shape(t, w),
    ensures
        any_shape(w),
{
}

} // verus!
