//! Rendering classified tokens in the cases the user asked for.
use vstd::prelude::*;
use vstd::string::StringExecFns;
use naming_lib::NamingCase as Outer;
use crate::case::{spec_tag_of, tag_of, NamingCase, Tag};
use crate::filter::views;
use crate::shape::separated_at;
use crate::words::{
    camel_of, case_fixed, joined, kebab_of, lemma_joined_round_trip, lemma_separated_round_trip,
    pascal_of, screaming_snake_of, snake_of, words_of,
};

verus! {

/// Relies on naming_lib::NamingCase::to_screaming_snake: it splits the token into
/// its words by its case, upper-cases them and joins them with `_`. It fails only
/// on an invalid token.
#[verifier::external_body]
fn to_screaming_snake(c: &NamingCase) -> (r: String)
    requires
        c.wf(),
    ensures
        r@ == screaming_snake_of(words_of(c.tag(), c.text())),
{
    let outer = match c {
        NamingCase::ScreamingSnake(s) => Outer::ScreamingSnake(s.clone()),
        NamingCase::Snake(s) => Outer::Snake(s.clone()),
        NamingCase::Kebab(s) => Outer::Kebab(s.clone()),
        NamingCase::Camel(s) => Outer::Camel(s.clone()),
        NamingCase::Pascal(s) => Outer::Pascal(s.clone()),
    };
    outer.to_screaming_snake().unwrap()
}

/// Relies on naming_lib::NamingCase::to_snake: it splits the token into its words
/// by its case, lower-cases them and joins them with `_`. It fails only on an
/// invalid token.
#[verifier::external_body]
fn to_snake(c: &NamingCase) -> (r: String)
    requires
        c.wf(),
    ensures
        r@ == snake_of(words_of(c.tag(), c.text())),
{
    let outer = match c {
        NamingCase::ScreamingSnake(s) => Outer::ScreamingSnake(s.clone()),
        NamingCase::Snake(s) => Outer::Snake(s.clone()),
        NamingCase::Kebab(s) => Outer::Kebab(s.clone()),
        NamingCase::Camel(s) => Outer::Camel(s.clone()),
        NamingCase::Pascal(s) => Outer::Pascal(s.clone()),
    };
    outer.to_snake().unwrap()
}

/// Relies on naming_lib::NamingCase::to_kebab: it splits the token into its words
/// by its case, lower-cases them and joins them with `-`. It fails only on an
/// invalid token.
#[verifier::external_body]
fn to_kebab(c: &NamingCase) -> (r: String)
    requires
        c.wf(),
    ensures
        r@ == kebab_of(words_of(c.tag(), c.text())),
{
    let outer = match c {
        NamingCase::ScreamingSnake(s) => Outer::ScreamingSnake(s.clone()),
        NamingCase::Snake(s) => Outer::Snake(s.clone()),
        NamingCase::Kebab(s) => Outer::Kebab(s.clone()),
        NamingCase::Camel(s) => Outer::Camel(s.clone()),
        NamingCase::Pascal(s) => Outer::Pascal(s.clone()),
    };
    outer.to_kebab().unwrap()
}

/// Relies on naming_lib::NamingCase::to_camel: it splits the token into its words
/// by its case, lower-cases the first and capitalises the others. It fails only on
/// an invalid token, and a well-formed token has a first word.
#[verifier::external_body]
fn to_camel(c: &NamingCase) -> (r: String)
    requires
        c.wf(),
    ensures
        r@ == camel_of(words_of(c.tag(), c.text())),
{
    let outer = match c {
        NamingCase::ScreamingSnake(s) => Outer::ScreamingSnake(s.clone()),
        NamingCase::Snake(s) => Outer::Snake(s.clone()),
        NamingCase::Kebab(s) => Outer::Kebab(s.clone()),
        NamingCase::Camel(s) => Outer::Camel(s.clone()),
        NamingCase::Pascal(s) => Outer::Pascal(s.clone()),
    };
    outer.to_camel().unwrap()
}

/// Relies on naming_lib::NamingCase::to_pascal: it splits the token into its words
/// by its case and capitalises each. It fails only on an invalid token, and a
/// well-formed token has no empty word.
#[verifier::external_body]
fn to_pascal(c: &NamingCase) -> (r: String)
    requires
        c.wf(),
    ensures
        r@ == pascal_of(words_of(c.tag(), c.text())),
{
    let outer = match c {
        NamingCase::ScreamingSnake(s) => Outer::ScreamingSnake(s.clone()),
        NamingCase::Snake(s) => Outer::Snake(s.clone()),
        NamingCase::Kebab(s) => Outer::Kebab(s.clone()),
        NamingCase::Camel(s) => Outer::Camel(s.clone()),
        NamingCase::Pascal(s) => Outer::Pascal(s.clone()),
    };
    outer.to_pascal().unwrap()
}

/// A tag that can be rendered: every tag but `h`.
pub open spec fn is_target(t: Tag) -> bool {
    t != Tag::Hungarian
}

/// The token `c` written in the case of `t`.
pub open spec fn rendered(t: Tag, c: NamingCase) -> Seq<char> {
    match t {
        Tag::ScreamingSnake => screaming_snake_of(words_of(c.tag(), c.text())),
        Tag::Snake => snake_of(words_of(c.tag(), c.text())),
        Tag::Kebab => kebab_of(words_of(c.tag(), c.text())),
        Tag::Camel => camel_of(words_of(c.tag(), c.text())),
        Tag::Pascal => pascal_of(words_of(c.tag(), c.text())),
        Tag::Hungarian => Seq::empty(),
    }
}

/// The long name of a case, used as a JSON field name.
pub open spec fn field_name(t: Tag) -> Seq<char> {
    match t {
        Tag::ScreamingSnake => "screaming_snake"@,
        Tag::Snake => "snake"@,
        Tag::Kebab => "kebab"@,
        Tag::Camel => "camel"@,
        Tag::Pascal => "pascal"@,
        Tag::Hungarian => Seq::empty(),
    }
}

/// `"<field name>":"<rendered token>"`
pub open spec fn json_field(t: Tag, c: NamingCase) -> Seq<char> {
    json_field_text(t, rendered(t, c))
}

/// The renderings of `c`, one for each tag of `ts`, in the order of `ts`.
pub open spec fn renderings(ts: Seq<Tag>, c: NamingCase) -> Seq<Seq<char>>
    decreases ts.len(),
{
    if ts.len() == 0 {
        Seq::empty()
    } else {
        renderings(ts.drop_last(), c).push(rendered(ts.last(), c))
    }
}

/// The JSON fields of `c`, one for each tag of `ts`, in the order of `ts`.
pub open spec fn json_fields(ts: Seq<Tag>, c: NamingCase) -> Seq<Seq<char>>
    decreases ts.len(),
{
    if ts.len() == 0 {
        Seq::empty()
    } else {
        json_fields(ts.drop_last(), c).push(json_field(ts.last(), c))
    }
}

/// The renderings and JSON fields of a token follow the order of the target
/// list, whatever the order of the cases: the `i`-th is for the `i`-th target.
pub proof fn lemma_renderings_follow_targets(ts: Seq<Tag>, c: NamingCase)
    ensures
        renderings(ts, c).len() == ts.len(),
        json_fields(ts, c).len() == ts.len(),
        forall|i: int| 0 <= i < ts.len() ==> #[trigger] renderings(ts, c)[i] == rendered(ts[i], c),
        forall|i: int| 0 <= i < ts.len() ==> #[trigger] json_fields(ts, c)[i] == json_field(ts[i], c),
    decreases ts.len(),
{
    if ts.len() > 0 {
        lemma_renderings_follow_targets(ts.drop_last(), c);
    }
}

/// `<sep><part><sep><part>...`: each part with `sep` before it.
pub open spec fn prefixed(parts: Seq<Seq<char>>, sep: Seq<char>) -> Seq<char>
    decreases parts.len(),
{
    if parts.len() == 0 {
        Seq::empty()
    } else {
        prefixed(parts.drop_last(), sep) + sep + parts.last()
    }
}

/// `<origin> <part><sep><part>...`, or `<origin>` alone when there are no parts.
pub open spec fn line_text(origin: Seq<char>, parts: Seq<Seq<char>>, sep: Seq<char>) -> Seq<char> {
    if parts.len() == 0 {
        origin
    } else {
        origin + " "@ + joined(parts, sep)
    }
}

/// `{"origin":"<origin>",<field>,<field>,...}`, or `{"origin":"<origin>"}` when
/// there are no fields.
pub open spec fn json_object_text(origin: Seq<char>, fields: Seq<Seq<char>>) -> Seq<char> {
    "{\"origin\":\""@ + origin + "\""@ + prefixed(fields, ","@) + "}"@
}

/// `{"origin":"<origin>","regex":"<part>|<part>|..."}`
pub open spec fn regex_object_text(origin: Seq<char>, parts: Seq<Seq<char>>) -> Seq<char> {
    "{\"origin\":\""@ + origin + "\",\"regex\":\""@ + joined(parts, "|"@) + "\"}"@
}

/// `{"result":[<object>,<object>,...]}`
pub open spec fn result_text(objects: Seq<Seq<char>>) -> Seq<char> {
    "{\"result\":["@ + joined(objects, ","@) + "]}"@
}

/// `"<field name>":"<value>"`
pub open spec fn json_field_text(t: Tag, value: Seq<char>) -> Seq<char> {
    "\""@ + field_name(t) + "\":\""@ + value + "\""@
}

/// `<token> <rendering> <rendering> ...`
pub open spec fn line_of(ts: Seq<Tag>, c: NamingCase) -> Seq<char> {
    line_text(c.text(), renderings(ts, c), " "@)
}

/// `<token> <rendering>|<rendering>|...`
pub open spec fn regex_line_of(ts: Seq<Tag>, c: NamingCase) -> Seq<char> {
    line_text(c.text(), renderings(ts, c), "|"@)
}

/// `{"origin":"<token>",<field>,<field>,...}`
pub open spec fn json_object_of(ts: Seq<Tag>, c: NamingCase) -> Seq<char> {
    json_object_text(c.text(), json_fields(ts, c))
}

/// `{"origin":"<token>","regex":"<rendering>|<rendering>|..."}`
pub open spec fn regex_object_of(ts: Seq<Tag>, c: NamingCase) -> Seq<char> {
    regex_object_text(c.text(), renderings(ts, c))
}

pub open spec fn lines_text(ts: Seq<Tag>, cs: Seq<NamingCase>) -> Seq<char> {
    joined(cs.map_values(|c: NamingCase| line_of(ts, c)), "\n"@)
}

pub open spec fn regex_text(ts: Seq<Tag>, cs: Seq<NamingCase>) -> Seq<char> {
    joined(cs.map_values(|c: NamingCase| regex_line_of(ts, c)), "\n"@)
}

pub open spec fn json_text(ts: Seq<Tag>, cs: Seq<NamingCase>) -> Seq<char> {
    result_text(cs.map_values(|c: NamingCase| json_object_of(ts, c)))
}

pub open spec fn regex_json_text(ts: Seq<Tag>, cs: Seq<NamingCase>) -> Seq<char> {
    result_text(cs.map_values(|c: NamingCase| regex_object_of(ts, c)))
}

/// A token rendered in its own case comes back as it was written.
pub proof fn lemma_render_in_own_case(c: NamingCase)
    requires
        c.wf(),
    ensures
        rendered(c.tag(), c) == c.text(),
{
    let s = c.text();
    match c.tag() {
        Tag::ScreamingSnake => {
            assert forall|k: int| 0 <= k < s.len() implies #[trigger] s[k] == '_' || case_fixed(
                s[k],
                true,
            ) by {
                assert(separated_at(s, k, true, '_'));
            }
            lemma_separated_round_trip(s, '_', true);
        },
        Tag::Snake => {
            assert forall|k: int| 0 <= k < s.len() implies #[trigger] s[k] == '_' || case_fixed(
                s[k],
                false,
            ) by {
                assert(separated_at(s, k, false, '_'));
            }
            lemma_separated_round_trip(s, '_', false);
        },
        Tag::Kebab => {
            assert forall|k: int| 0 <= k < s.len() implies #[trigger] s[k] == '-' || case_fixed(
                s[k],
                false,
            ) by {
                assert(separated_at(s, k, false, '-'));
            }
            lemma_separated_round_trip(s, '-', false);
        },
        _ => {
            lemma_joined_round_trip(s);
        },
    }
}

/// Among the renderings and JSON fields of a well-formed token, the one for the
/// token's own case, wherever it stands in the target list, holds the token as
/// it was written.
pub proof fn lemma_own_case_field(ts: Seq<Tag>, c: NamingCase, i: int)
    requires
        c.wf(),
        0 <= i < ts.len(),
        ts[i] == c.tag(),
    ensures
        renderings(ts, c)[i] == c.text(),
        json_fields(ts, c)[i] == json_field_text(c.tag(), c.text()),
{
    lemma_renderings_follow_targets(ts, c);
    lemma_render_in_own_case(c);
}

/// Renders `c` in the case of `t`; a token rendered in its own case comes back
/// as it was written.
pub fn render(t: Tag, c: &NamingCase) -> (r: String)
    requires
        is_target(t),
        c.wf(),
    ensures
        r@ == rendered(t, *c),
        t == c.tag() ==> r@ == c.text(),
{
    proof {
        if t == c.tag() {
            lemma_render_in_own_case(*c);
        }
    }
    match t {
        Tag::ScreamingSnake => to_screaming_snake(c),
        Tag::Snake => to_snake(c),
        Tag::Kebab => to_kebab(c),
        Tag::Camel => to_camel(c),
        _ => to_pascal(c),
    }
}

/// Joins `parts` with `sep` between each two.
pub fn join(parts: &Vec<String>, sep: &str) -> (r: String)
    ensures
        r@ == joined(views(parts@), sep@),
{
    let mut out = String::new();
    let mut i: usize = 0;
    while i < parts.len()
        invariant
            i <= parts@.len(),
            out@ == joined(views(parts@).take(i as int), sep@),
        decreases parts@.len() - i,
    {
        let ghost ps = views(parts@);
        proof {
            assert(ps.take(i + 1).drop_last() =~= ps.take(i as int));
            assert(ps.take(i + 1).last() == parts@[i as int]@);
        }
        if i > 0 {
            out.append(sep);
        } else {
            assert(ps.take(1)[0] == parts@[0]@);
        }
        out.append(parts[i].as_str());
        i = i + 1;
    }
    proof {
        assert(views(parts@).take(parts@.len() as int) =~= views(parts@));
    }
    out
}

/// `<origin> <part><sep><part>...`
pub fn line_from(origin: &str, parts: &Vec<String>, sep: &str) -> (r: String)
    ensures
        r@ == line_text(origin@, views(parts@), sep@),
{
    let mut s = String::from_str(origin);
    if parts.len() > 0 {
        s.append(" ");
        s.append(join(parts, sep).as_str());
    }
    s
}

/// `{"origin":"<origin>",<field>,<field>,...}`
pub fn json_object_from(origin: &str, fields: &Vec<String>) -> (r: String)
    ensures
        r@ == json_object_text(origin@, views(fields@)),
{
    let mut s = String::from_str("{\"origin\":\"");
    s.append(origin);
    s.append("\"");
    let mut i: usize = 0;
    while i < fields.len()
        invariant
            i <= fields@.len(),
            s@ == "{\"origin\":\""@ + origin@ + "\""@ + prefixed(views(fields@).take(i as int), ","@),
        decreases fields@.len() - i,
    {
        proof {
            let fs = views(fields@);
            assert(fs.take(i + 1).drop_last() =~= fs.take(i as int));
            assert(fs.take(i + 1).last() == fields@[i as int]@);
        }
        s.append(",");
        s.append(fields[i].as_str());
        i = i + 1;
    }
    proof {
        assert(views(fields@).take(fields@.len() as int) =~= views(fields@));
    }
    s.append("}");
    s
}

/// `{"origin":"<origin>","regex":"<part>|<part>|..."}`
pub fn regex_object_from(origin: &str, parts: &Vec<String>) -> (r: String)
    ensures
        r@ == regex_object_text(origin@, views(parts@)),
{
    let mut s = String::from_str("{\"origin\":\"");
    s.append(origin);
    s.append("\",\"regex\":\"");
    s.append(join(parts, "|").as_str());
    s.append("\"}");
    s
}

/// `{"result":[<object>,<object>,...]}`
pub fn result_from(objects: &Vec<String>) -> (r: String)
    ensures
        r@ == result_text(views(objects@)),
{
    let mut s = String::from_str("{\"result\":[");
    s.append(join(objects, ",").as_str());
    s.append("]}");
    s
}

/// `"<field name>":"<value>"`
pub fn json_field_from(t: Tag, value: &str) -> (r: String)
    requires
        is_target(t),
    ensures
        r@ == json_field_text(t, value@),
{
    let mut field = String::from_str("\"");
    field.append(field_name_of(t));
    field.append("\":\"");
    field.append(value);
    field.append("\"");
    field
}

/// The four shapes of output.
#[derive(Clone, Copy, PartialEq, Eq, Structural)]
enum Form {
    Line,
    RegexLine,
    JsonObject,
    RegexObject,
}

spec fn form_of(form: Form, ts: Seq<Tag>, c: NamingCase) -> Seq<char> {
    match form {
        Form::Line => line_of(ts, c),
        Form::RegexLine => regex_line_of(ts, c),
        Form::JsonObject => json_object_of(ts, c),
        Form::RegexObject => regex_object_of(ts, c),
    }
}

/// Renders classified tokens in a list of target cases, kept in the order given.
pub struct Convertor {
    options: Vec<Option<Tag>>,
    cases: Vec<NamingCase>,
}

/// The tag that an option names, or `h`, which is never rendered, for none.
pub open spec fn target_of(o: Option<Tag>) -> Tag {
    match o {
        Some(t) => t,
        None => Tag::Hungarian,
    }
}

impl Convertor {
    /// The tag each output option names, if any, in the order given.
    pub closed spec fn options(self) -> Seq<Option<Tag>> {
        self.options@
    }

    /// The tokens to render.
    pub closed spec fn cases(self) -> Seq<NamingCase> {
        self.cases@
    }

    /// The target cases, in the order they are rendered.
    pub open spec fn targets(self) -> Seq<Tag> {
        self.options().map_values(|o: Option<Tag>| target_of(o))
    }

    /// Every option names a case that can be rendered, and every token has the
    /// shape of its case.
    pub open spec fn ready(self) -> bool {
        &&& forall|i: int|
            0 <= i < self.options().len() ==> (#[trigger] self.options()[i] matches Some(t)
                && is_target(t))
        &&& forall|i: int| 0 <= i < self.cases().len() ==> (#[trigger] self.cases()[i]).wf()
    }

    /// Takes the output options as they are, and the tokens.
    pub fn new(options: &Vec<&str>, cases: Vec<NamingCase>) -> (r: Convertor)
        ensures
            r.options() == options@.map_values(|s: &str| spec_tag_of(s@)),
            r.cases() == cases@,
    {
        let mut tags: Vec<Option<Tag>> = Vec::new();
        let mut i: usize = 0;
        while i < options.len()
            invariant
                i <= options@.len(),
                tags@ =~= options@.take(i as int).map_values(|s: &str| spec_tag_of(s@)),
            decreases options@.len() - i,
        {
            let t = tag_of(options[i]);
            tags.push(t);
            proof {
                assert(options@.take(i + 1) =~= options@.take(i as int).push(options@[i as int]));
            }
            i = i + 1;
        }
        proof {
            assert(options@.take(options@.len() as int) =~= options@);
        }
        Convertor { options: tags, cases }
    }

    /// The renderings of `c` in the target cases, in their order.
    fn renderings_of(&self, c: &NamingCase, json: bool) -> (r: Vec<String>)
        requires
            self.ready(),
            c.wf(),
        ensures
            views(r@) == if json {
                json_fields(self.targets(), *c)
            } else {
                renderings(self.targets(), *c)
            },
    {
        let mut out: Vec<String> = Vec::new();
        let mut i: usize = 0;
        while i < self.options.len()
            invariant
                self.ready(),
                c.wf(),
                i <= self.options@.len(),
                views(out@) == if json {
                    json_fields(self.targets().take(i as int), *c)
                } else {
                    renderings(self.targets().take(i as int), *c)
                },
            decreases self.options@.len() - i,
        {
            proof {
                assert(self.options()[i as int] matches Some(t) && is_target(t));
            }
            let t = match self.options[i] {
                Some(t) => t,
                None => Tag::Pascal,
            };
            proof {
                assert(self.targets().take(i + 1).drop_last() =~= self.targets().take(i as int));
                assert(self.targets().take(i + 1).last() == t);
            }
            let value = render(t, c);
            let item = if json {
                json_field_from(t, value.as_str())
            } else {
                value
            };
            out.push(item);
            proof {
                assert(views(out@) =~= views(out@).drop_last().push(item@));
            }
            i = i + 1;
        }
        proof {
            assert(self.targets().take(self.options@.len() as int) =~= self.targets());
        }
        out
    }

    /// One token written in the given form.
    fn case_in(&self, c: &NamingCase, form: Form) -> (r: String)
        requires
            self.ready(),
            c.wf(),
        ensures
            r@ == form_of(form, self.targets(), *c),
    {
        let json = form == Form::JsonObject;
        let parts = self.renderings_of(c, json);
        match form {
            Form::Line => line_from(c.as_str(), &parts, " "),
            Form::RegexLine => line_from(c.as_str(), &parts, "|"),
            Form::JsonObject => json_object_from(c.as_str(), &parts),
            Form::RegexObject => regex_object_from(c.as_str(), &parts),
        }
    }

    /// Every token written in the given form, in their order.
    fn cases_in(&self, form: Form) -> (r: Vec<String>)
        requires
            self.ready(),
        ensures
            views(r@) == self.cases().map_values(|c: NamingCase| form_of(form, self.targets(), c)),
    {
        let mut out: Vec<String> = Vec::new();
        let mut i: usize = 0;
        while i < self.cases.len()
            invariant
                self.ready(),
                i <= self.cases@.len(),
                views(out@) =~= self.cases@.take(i as int).map_values(
                    |c: NamingCase| form_of(form, self.targets(), c),
                ),
            decreases self.cases@.len() - i,
        {
            proof {
                assert(self.cases()[i as int].wf());
            }
            let ghost before = views(out@);
            let s = self.case_in(&self.cases[i], form);
            out.push(s);
            proof {
                let f = |c: NamingCase| form_of(form, self.targets(), c);
                assert(views(out@) =~= before.push(s@));
                assert(self.cases@.take(i + 1).map_values(f) =~= self.cases@.take(i as int).map_values(
                    f,
                ).push(f(self.cases@[i as int])));
            }
            i = i + 1;
        }
        proof {
            assert(self.cases@.take(self.cases@.len() as int) =~= self.cases@);
        }
        out
    }

    /// One line per token: the token, then its renderings, separated by spaces.
    pub fn into_lines(self) -> (r: String)
        requires
            self.ready(),
        ensures
            r@ == lines_text(self.targets(), self.cases()),
    {
        let lines = self.cases_in(Form::Line);
        proof {
            assert(views(lines@) =~= self.cases().map_values(|c: NamingCase| line_of(self.targets(), c)));
        }
        join(&lines, "\n")
    }

    /// `{"result":[...]}` with one object per token, holding a field per target case.
    pub fn into_json(self) -> (r: String)
        requires
            self.ready(),
        ensures
            r@ == json_text(self.targets(), self.cases()),
    {
        let objects = self.cases_in(Form::JsonObject);
        proof {
            assert(views(objects@) =~= self.cases().map_values(|c: NamingCase| json_object_of(self.targets(), c)));
        }
        result_from(&objects)
    }

    /// One line per token: the token, then its renderings joined into one alternation.
    pub fn into_regex(self) -> (r: String)
        requires
            self.ready(),
        ensures
            r@ == regex_text(self.targets(), self.cases()),
    {
        let lines = self.cases_in(Form::RegexLine);
        proof {
            assert(views(lines@) =~= self.cases().map_values(|c: NamingCase| regex_line_of(self.targets(), c)));
        }
        join(&lines, "\n")
    }

    /// `{"result":[...]}` with one object per token, holding the alternation of its
    /// renderings.
    pub fn into_regex_json(self) -> (r: String)
        requires
            self.ready(),
        ensures
            r@ == regex_json_text(self.targets(), self.cases()),
    {
        let objects = self.cases_in(Form::RegexObject);
        proof {
            assert(views(objects@) =~= self.cases().map_values(|c: NamingCase| regex_object_of(self.targets(), c)));
        }
        result_from(&objects)
    }
}

/// The long name of a target case.
fn field_name_of(t: Tag) -> (r: &'static str)
    requires
        is_target(t),
    ensures
        r@ == field_name(t),
{
    match t {
        Tag::ScreamingSnake => "screaming_snake",
        Tag::Snake => "snake",
        Tag::Kebab => "kebab",
        Tag::Camel => "camel",
        _ => "pascal",
    }
}

} // verus!
