//! The architecture description language.
//!
//! A description declares nodes and relationships, one per line:
//!
//! ```text
//! system ECommerce "E-Commerce Platform"
//! container API "API Gateway" "Node.js"
//! component Auth "Authentication" "JWT"
//! person User "Customer"
//! API -> Auth "validates"
//! ```
//!
//! A declaration or relationship starts at the beginning of a line, after
//! optional white space.  Text that fits no form is passed over.  The model
//! holds all containers first, then all components, persons and systems,
//! each kind in the order of the text, and then the relationships.
//!
//! Which characters may stand in an identifier is for Unicode's tables to
//! say.  The grammar takes the answer as a sequence `w` of booleans, one
//! for each character of the text.
use vstd::prelude::*;
use crate::error::OptaError;
use crate::fixed::SCALE;
use crate::model::{EdgeView, ModelView, NodeType, NodeView, OptaEdge, OptaModel, OptaNode};
use crate::text::{chars_of, is_space, occurs, occurs_at, space, text_of};

verus! {

/// Whether `c` may stand in an identifier: a Unicode word character
/// (alphabetic, mark, decimal number, connector punctuation, join control).
pub uninterp spec fn word_character(c: char) -> bool;

/// `regex_syntax::is_word_character`: whether `c` is a Unicode word
/// character.  The crate's tables decide; the answer is named, not spelled
/// out.
#[verifier::external_body]
fn is_word(c: char) -> (r: bool)
    ensures
        r == word_character(c),
{
    regex_syntax::is_word_character(c)
}

/// The first position from `p` on that holds no white space.
pub open spec fn skip_spaces(s: Seq<char>, p: int) -> int
    decreases s.len() - p,
{
    if 0 <= p < s.len() && is_space(s[p]) {
        skip_spaces(s, p + 1)
    } else {
        p
    }
}

/// The first position from `p` on that holds no word character, where `w`
/// says of each position whether its character is one; a position that `w`
/// does not reach holds none.
pub open spec fn skip_word(s: Seq<char>, w: Seq<bool>, p: int) -> int
    decreases s.len() - p,
{
    if 0 <= p < s.len() && p < w.len() && w[p] {
        skip_word(s, w, p + 1)
    } else {
        p
    }
}

/// The first position from `p` on that holds a double quote, or the end.
pub open spec fn skip_unquoted(s: Seq<char>, p: int) -> int
    decreases s.len() - p,
{
    if 0 <= p < s.len() && s[p] != '"' {
        skip_unquoted(s, p + 1)
    } else {
        p
    }
}

/// A quoted, non-empty text at `p`: the bounds of what stands between the
/// quotes.
pub open spec fn quoted_at(s: Seq<char>, p: int) -> Option<(int, int)> {
    if 0 <= p < s.len() && s[p] == '"' {
        let end = skip_unquoted(s, p + 1);
        if p + 1 < end < s.len() {
            Some((p + 1, end))
        } else {
            None
        }
    } else {
        None
    }
}

/// White space and then a quoted text, from `p` on.
pub open spec fn spaced_quoted_at(s: Seq<char>, p: int) -> Option<(int, int)> {
    let q = skip_spaces(s, p);
    if q > p {
        quoted_at(s, q)
    } else {
        None
    }
}

/// A form of the language found in the text.
pub struct Found {
    /// The identifier; for a relationship, its source.
    pub id: Seq<char>,
    /// The display name; for a relationship, its target.
    pub name: Seq<char>,
    /// The technology; for a relationship, its label.
    pub extra: Option<Seq<char>>,
    /// Where the form ends.
    pub end: int,
}

/// The optional third part of a form, which starts at `after` when it is
/// absent or not asked for.
pub open spec fn with_extra(
    s: Seq<char>,
    id: Seq<char>,
    name: Seq<char>,
    after: int,
    wanted: bool,
) -> Found {
    match spaced_quoted_at(s, after) {
        Some((from, to)) => if wanted {
            Found { id, name, extra: Some(s.subrange(from, to)), end: to + 1 }
        } else {
            Found { id, name, extra: None, end: after }
        },
        None => Found { id, name, extra: None, end: after },
    }
}

/// A declaration at `p`: optional white space, the keyword, white space, an
/// identifier, white space, the quoted name and, where the kind has one, white
/// space and the quoted technology.
pub open spec fn declaration_at(s: Seq<char>, w: Seq<bool>, p: int, keyword: Seq<char>, technology: bool) -> Option<
    Found,
> {
    let a = skip_spaces(s, p);
    let b = a + keyword.len();
    let c = skip_spaces(s, b);
    let d = skip_word(s, w, c);
    let e = skip_spaces(s, d);
    if occurs_at(s, a, keyword) && b < c < d < e {
        match quoted_at(s, e) {
            Some((from, to)) => Some(
                with_extra(s, s.subrange(c, d), s.subrange(from, to), to + 1, technology),
            ),
            None => None,
        }
    } else {
        None
    }
}

/// A relationship at `p`: optional white space, the source identifier, an
/// arrow `->` with optional white space on both sides, the target identifier
/// and optionally white space and a quoted label.
pub open spec fn relationship_at(s: Seq<char>, w: Seq<bool>, p: int) -> Option<Found> {
    let a = skip_spaces(s, p);
    let b = skip_word(s, w, a);
    let c = skip_spaces(s, b);
    let d = skip_spaces(s, c + 2);
    let e = skip_word(s, w, d);
    if a < b && occurs_at(s, c, seq!['-', '>']) && d < e {
        Some(with_extra(s, s.subrange(a, b), s.subrange(d, e), e, true))
    } else {
        None
    }
}

/// The kinds of form.
#[derive(Clone, Copy, PartialEq, Eq, Structural)]
pub enum Form {
    Container,
    Component,
    Person,
    System,
    Relationship,
}

impl Form {
    /// The keyword that opens a declaration of this kind.
    pub open spec fn keyword(self) -> Seq<char> {
        match self {
            Form::Container => "container"@,
            Form::Component => "component"@,
            Form::Person => "person"@,
            Form::System => "system"@,
            Form::Relationship => Seq::empty(),
        }
    }

    /// Whether a declaration of this kind may name a technology.
    pub open spec fn has_technology(self) -> bool {
        self == Form::Container || self == Form::Component
    }

    /// The node type that a declaration of this kind gives.
    pub open spec fn node_type(self) -> NodeType {
        match self {
            Form::Container => NodeType::Container,
            Form::Component => NodeType::Component,
            Form::Person => NodeType::Person,
            _ => NodeType::System,
        }
    }
}

/// The form of the given kind at `p`, if there is one.
pub open spec fn form_at(s: Seq<char>, w: Seq<bool>, p: int, form: Form) -> Option<Found> {
    if form == Form::Relationship {
        relationship_at(s, w, p)
    } else {
        declaration_at(s, w, p, form.keyword(), form.has_technology())
    }
}

/// Whether a line begins at `p`.
pub open spec fn line_start(s: Seq<char>, p: int) -> bool {
    p == 0 || (0 < p <= s.len() && s[p - 1] == '\n')
}

/// The forms of one kind from `p` on, in the order of the text.  A form is
/// looked for at each beginning of a line; after one was found, the search
/// goes on where it ends.
pub open spec fn forms_from(s: Seq<char>, w: Seq<bool>, p: int, form: Form) -> Seq<Found>
    decreases s.len() - p,
{
    if p < 0 || p >= s.len() {
        Seq::empty()
    } else if line_start(s, p) {
        match form_at(s, w, p, form) {
            Some(found) => if p < found.end <= s.len() {
                seq![found] + forms_from(s, w, found.end, form)
            } else {
                Seq::empty()
            },
            None => forms_from(s, w, p + 1, form),
        }
    } else {
        forms_from(s, w, p + 1, form)
    }
}

/// The node that a declaration gives.
pub open spec fn declared_node(found: Found, form: Form) -> NodeView {
    NodeView {
        id: found.id,
        name: found.name,
        node_type: form.node_type(),
        description: None,
        technology: found.extra,
        position: None,
    }
}

/// The nodes of one kind that a text declares.
pub open spec fn declared_nodes(s: Seq<char>, w: Seq<bool>, form: Form) -> Seq<NodeView> {
    let found = forms_from(s, w, 0, form);
    Seq::new(found.len(), |i: int| declared_node(found[i], form))
}

/// The edge that a relationship gives.
pub open spec fn related_edge(found: Found) -> EdgeView {
    EdgeView { from: found.id, to: found.name, label: found.extra, weight: SCALE as int }
}

/// The edges that a text declares.
pub open spec fn related_edges(s: Seq<char>, w: Seq<bool>) -> Seq<EdgeView> {
    let found = forms_from(s, w, 0, Form::Relationship);
    Seq::new(found.len(), |i: int| related_edge(found[i]))
}

/// Which characters of a text are word characters.
pub open spec fn word_map(s: Seq<char>) -> Seq<bool> {
    Seq::new(s.len(), |i: int| word_character(s[i]))
}

/// The model that a text describes, where `w` says which of its characters
/// may stand in an identifier.
pub open spec fn described_by(s: Seq<char>, w: Seq<bool>) -> ModelView {
    ModelView {
        nodes: declared_nodes(s, w, Form::Container) + declared_nodes(s, w, Form::Component)
            + declared_nodes(s, w, Form::Person) + declared_nodes(s, w, Form::System),
        edges: related_edges(s, w),
        matrix: None,
    }
}

/// The model that a text describes.
pub open spec fn described_model(s: Seq<char>) -> ModelView {
    described_by(s, word_map(s))
}

fn after_spaces(s: &Vec<char>, p: usize) -> (r: usize)
    requires
        p <= s.len(),
    ensures
        r == skip_spaces(s@, p as int),
        p <= r <= s.len(),
{
    let mut i: usize = p;
    while i < s.len() && space(s[i])
        invariant
            p <= i <= s.len(),
            skip_spaces(s@, i as int) == skip_spaces(s@, p as int),
        decreases s.len() - i,
    {
        i = i + 1;
    }
    i
}

fn after_word(s: &Vec<char>, w: &Vec<bool>, p: usize) -> (r: usize)
    requires
        p <= s.len(),
    ensures
        r == skip_word(s@, w@, p as int),
        p <= r <= s.len(),
{
    let mut i: usize = p;
    while i < s.len() && i < w.len() && w[i]
        invariant
            p <= i <= s.len(),
            skip_word(s@, w@, i as int) == skip_word(s@, w@, p as int),
        decreases s.len() - i,
    {
        i = i + 1;
    }
    i
}

fn after_unquoted(s: &Vec<char>, p: usize) -> (r: usize)
    requires
        p <= s.len(),
    ensures
        r == skip_unquoted(s@, p as int),
        p <= r <= s.len(),
{
    let mut i: usize = p;
    while i < s.len() && s[i] != '"'
        invariant
            p <= i <= s.len(),
            skip_unquoted(s@, i as int) == skip_unquoted(s@, p as int),
        decreases s.len() - i,
    {
        i = i + 1;
    }
    i
}

fn quoted(s: &Vec<char>, p: usize) -> (r: Option<(usize, usize)>)
    requires
        p <= s.len(),
    ensures
        match r {
            Some((from, to)) => quoted_at(s@, p as int) == Some((from as int, to as int)) && from
                <= to < s.len(),
            None => quoted_at(s@, p as int) is None,
        },
{
    if p < s.len() && s[p] == '"' {
        let end: usize = after_unquoted(s, p + 1);
        if p + 1 < end && end < s.len() {
            Some((p + 1, end))
        } else {
            None
        }
    } else {
        None
    }
}

fn spaced_quoted(s: &Vec<char>, p: usize) -> (r: Option<(usize, usize)>)
    requires
        p <= s.len(),
    ensures
        match r {
            Some((from, to)) => spaced_quoted_at(s@, p as int) == Some((from as int, to as int))
                && from <= to < s.len(),
            None => spaced_quoted_at(s@, p as int) is None,
        },
{
    let q: usize = after_spaces(s, p);
    if q > p {
        quoted(s, q)
    } else {
        None
    }
}

/// A form as the scanner found it.
pub struct Scanned {
    pub id: String,
    pub name: String,
    pub extra: Option<String>,
    pub end: usize,
}

impl View for Scanned {
    type V = Found;

    open spec fn view(&self) -> Found {
        Found {
            id: self.id@,
            name: self.name@,
            extra: crate::model::opt_text(self.extra),
            end: self.end as int,
        }
    }
}

fn scan_extra(s: &Vec<char>, id: String, name: String, after: usize, wanted: bool) -> (r: Scanned)
    requires
        after <= s.len(),
    ensures
        r@ == with_extra(s@, id@, name@, after as int, wanted),
        r.end <= s.len(),
{
    if wanted {
        match spaced_quoted(s, after) {
            Some((from, to)) => {
                return Scanned { id, name, extra: Some(text_of(s, from, to)), end: to + 1 };
            },
            None => {},
        }
    }
    Scanned { id, name, extra: None, end: after }
}

fn scan_declaration(s: &Vec<char>, w: &Vec<bool>, p: usize, keyword: &Vec<char>, technology: bool) -> (r: Option<
    Scanned,
>)
    requires
        p <= s.len(),
    ensures
        match r {
            Some(found) => declaration_at(s@, w@, p as int, keyword@, technology) == Some(found@)
                && found.end <= s.len(),
            None => declaration_at(s@, w@, p as int, keyword@, technology) is None,
        },
{
    let a: usize = after_spaces(s, p);
    if !occurs(s, a, keyword) {
        return None;
    }
    let b: usize = a + keyword.len();
    let c: usize = after_spaces(s, b);
    let d: usize = after_word(s, w, c);
    let e: usize = after_spaces(s, d);
    if !(b < c && c < d && d < e) {
        return None;
    }
    match quoted(s, e) {
        Some((from, to)) => {
            let id = text_of(s, c, d);
            let name = text_of(s, from, to);
            Some(scan_extra(s, id, name, to + 1, technology))
        },
        None => None,
    }
}

fn scan_relationship(s: &Vec<char>, w: &Vec<bool>, p: usize) -> (r: Option<Scanned>)
    requires
        p <= s.len(),
    ensures
        match r {
            Some(found) => relationship_at(s@, w@, p as int) == Some(found@) && found.end <= s.len(),
            None => relationship_at(s@, w@, p as int) is None,
        },
{
    let a: usize = after_spaces(s, p);
    let b: usize = after_word(s, w, a);
    let c: usize = after_spaces(s, b);
    if !(a < b) {
        return None;
    }
    if !(c < s.len() && s[c] == '-' && c + 1 < s.len() && s[c + 1] == '>') {
        proof {
            if occurs_at(s@, c as int, seq!['-', '>']) {
                let part = s@.subrange(c as int, c + 2);
                assert(part[0] == '-' && part[1] == '>');
            }
        }
        return None;
    }
    assert(s@.subrange(c as int, c + 2) =~= seq!['-', '>']);
    let d: usize = after_spaces(s, c + 2);
    let e: usize = after_word(s, w, d);
    if !(d < e) {
        return None;
    }
    let id = text_of(s, a, b);
    let name = text_of(s, d, e);
    Some(scan_extra(s, id, name, e, true))
}

fn keyword_of(form: Form) -> (r: Vec<char>)
    ensures
        r@ == form.keyword(),
{
    match form {
        Form::Container => chars_of("container"),
        Form::Component => chars_of("component"),
        Form::Person => chars_of("person"),
        Form::System => chars_of("system"),
        Form::Relationship => Vec::new(),
    }
}

fn scan_form(s: &Vec<char>, w: &Vec<bool>, p: usize, form: Form, keyword: &Vec<char>) -> (r: Option<Scanned>)
    requires
        p <= s.len(),
        keyword@ == form.keyword(),
    ensures
        match r {
            Some(found) => form_at(s@, w@, p as int, form) == Some(found@) && found.end <= s.len(),
            None => form_at(s@, w@, p as int, form) is None,
        },
{
    match form {
        Form::Relationship => scan_relationship(s, w, p),
        Form::Container => scan_declaration(s, w, p, keyword, true),
        Form::Component => scan_declaration(s, w, p, keyword, true),
        _ => scan_declaration(s, w, p, keyword, false),
    }
}

/// All forms of one kind in `s`, in the order of the text.
pub fn scan_forms(s: &Vec<char>, w: &Vec<bool>, form: Form) -> (r: Vec<Scanned>)
    ensures
        r.len() == forms_from(s@, w@, 0, form).len(),
        forall|i: int| 0 <= i < r.len() ==> (#[trigger] r[i])@ == forms_from(s@, w@, 0, form)[i],
{
    let keyword = keyword_of(form);
    let mut out: Vec<Scanned> = Vec::new();
    let ghost mut done: Seq<Found> = Seq::empty();
    let mut p: usize = 0;
    while p < s.len()
        invariant
            p <= s.len(),
            keyword@ == form.keyword(),
            out.len() == done.len(),
            forall|i: int| 0 <= i < out.len() ==> (#[trigger] out[i])@ == done[i],
            done + forms_from(s@, w@, p as int, form) == forms_from(s@, w@, 0, form),
        decreases s.len() - p,
    {
        let at_start: bool = p == 0 || s[p - 1] == '\n';
        if at_start {
            match scan_form(s, w, p, form, &keyword) {
                Some(found) => {
                    if found.end > p {
                        let next: usize = found.end;
                        proof {
                            assert(done.push(found@) + forms_from(s@, w@, next as int, form) =~= done
                                + forms_from(s@, w@, p as int, form));
                            done = done.push(found@);
                        }
                        out.push(found);
                        p = next;
                    } else {
                        assert(done =~= done + forms_from(s@, w@, p as int, form));
                        return out;
                    }
                },
                None => {
                    p = p + 1;
                },
            }
        } else {
            p = p + 1;
        }
    }
    assert(done =~= done + forms_from(s@, w@, p as int, form));
    out
}

fn add_declared(model: &mut OptaModel, s: &Vec<char>, w: &Vec<bool>, form: Form)
    requires
        form != Form::Relationship,
    ensures
        final(model)@ == (ModelView {
            nodes: old(model)@.nodes + declared_nodes(s@, w@, form),
            edges: old(model)@.edges,
            matrix: None,
        }),
{
    let found = scan_forms(s, w, form);
    let node_type = match form {
        Form::Container => NodeType::Container,
        Form::Component => NodeType::Component,
        Form::Person => NodeType::Person,
        _ => NodeType::System,
    };
    let ghost wanted = declared_nodes(s@, w@, form);
    model.adjacency_matrix = None;
    assert(model@.nodes =~= old(model)@.nodes);
    assert(model@.edges =~= old(model)@.edges);
    let mut i: usize = 0;
    while i < found.len()
        invariant
            i <= found.len(),
            found.len() == wanted.len(),
            wanted == declared_nodes(s@, w@, form),
            node_type == form.node_type(),
            forall|j: int| 0 <= j < found.len() ==> (#[trigger] found[j])@ == forms_from(s@, w@, 0, form)[j],
            model@ == (ModelView {
                nodes: old(model)@.nodes + wanted.take(i as int),
                edges: old(model)@.edges,
                matrix: None,
            }),
        decreases found.len() - i,
    {
        let id = found[i].id.clone();
        let name = found[i].name.clone();
        let mut node = OptaNode::new(id, name, node_type);
        match &found[i].extra {
            Some(technology) => {
                node = node.with_technology(technology.clone());
            },
            None => {},
        }
        assert(node@ == wanted[i as int]);
        model.add_node(node);
        assert(old(model)@.nodes + wanted.take(i + 1) =~= (old(model)@.nodes + wanted.take(
            i as int,
        )).push(wanted[i as int]));
        i = i + 1;
    }
    assert(wanted.take(i as int) =~= wanted);
}

fn add_related(model: &mut OptaModel, s: &Vec<char>, w: &Vec<bool>)
    ensures
        final(model)@ == (ModelView {
            nodes: old(model)@.nodes,
            edges: old(model)@.edges + related_edges(s@, w@),
            matrix: None,
        }),
{
    let found = scan_forms(s, w, Form::Relationship);
    let ghost wanted = related_edges(s@, w@);
    model.adjacency_matrix = None;
    assert(model@.nodes =~= old(model)@.nodes);
    assert(model@.edges =~= old(model)@.edges);
    let mut i: usize = 0;
    while i < found.len()
        invariant
            i <= found.len(),
            found.len() == wanted.len(),
            wanted == related_edges(s@, w@),
            forall|j: int|
                0 <= j < found.len() ==> (#[trigger] found[j])@ == forms_from(s@, w@,
                    0,
                    Form::Relationship,
                )[j],
            model@ == (ModelView {
                nodes: old(model)@.nodes,
                edges: old(model)@.edges + wanted.take(i as int),
                matrix: None,
            }),
        decreases found.len() - i,
    {
        let from = found[i].id.clone();
        let to = found[i].name.clone();
        let mut edge = OptaEdge::new(from, to);
        match &found[i].extra {
            Some(label) => {
                edge = edge.with_label(label.clone());
            },
            None => {},
        }
        assert(edge@ == wanted[i as int]);
        model.add_edge(edge);
        assert(old(model)@.edges + wanted.take(i + 1) =~= (old(model)@.edges + wanted.take(
            i as int,
        )).push(wanted[i as int]));
        i = i + 1;
    }
    assert(wanted.take(i as int) =~= wanted);
}

/// Which characters of a text are word characters.
pub fn classify(s: &Vec<char>) -> (words: Vec<bool>)
    ensures
        words@ == word_map(s@),
{
    let mut words: Vec<bool> = Vec::new();
    let mut i: usize = 0;
    while i < s.len()
        invariant
            i <= s.len(),
            words@ == word_map(s@).take(i as int),
        decreases s.len() - i,
    {
        words.push(is_word(s[i]));
        assert(words@ =~= word_map(s@).take(i + 1));
        i = i + 1;
    }
    assert(word_map(s@).take(i as int) =~= word_map(s@));
    words
}

/// Reads a description, given which of its characters may stand in an
/// identifier: `words[i]` says so of the character `i`, and a character
/// that `words` does not reach may not.
pub fn parse_classified(input: &str, words: &Vec<bool>) -> (r: Result<OptaModel, OptaError>)
    ensures
        r is Ok,
        r->Ok_0@ == described_by(input@, words@),
        forall|i: int|
            0 <= i < r->Ok_0@.nodes.len() ==> (#[trigger] r->Ok_0@.nodes[i]).position is None,
{
    let s = chars_of(input);
    let mut model = OptaModel::new();
    add_declared(&mut model, &s, words, Form::Container);
    add_declared(&mut model, &s, words, Form::Component);
    add_declared(&mut model, &s, words, Form::Person);
    add_declared(&mut model, &s, words, Form::System);
    add_related(&mut model, &s, words);
    assert(model@.nodes =~= described_by(input@, words@).nodes);
    assert(model@.edges =~= described_by(input@, words@).edges);
    Ok(model)
}

/// Reads a description.  Every text is accepted: what fits no form of the
/// language is passed over.  No node of the result has a position.
pub fn parse_c4_dsl(input: &str) -> (r: Result<OptaModel, OptaError>)
    ensures
        r is Ok,
        r->Ok_0@ == described_model(input@),
        forall|i: int|
            0 <= i < r->Ok_0@.nodes.len() ==> (#[trigger] r->Ok_0@.nodes[i]).position is None,
{
    let s = chars_of(input);
    let words = classify(&s);
    parse_classified(input, &words)
}

} // verus!
