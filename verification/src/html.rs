//! The markup parser: a recursive-descent parser from a document string
//! to a single root node, forwarding the text of any inline style block
//! to the style parser as it goes. The grammar is given by the spec
//! functions here; the parser is proved to return exactly what the
//! grammar says, and to extend the shared style-sheet collection by
//! exactly the sheets of the style blocks in the tree it returns.

use vstd::prelude::*;

use crate::css;
use crate::css::SheetV;
use crate::css::StyleSheet;
use crate::css::sheets_view;
use crate::css::sp_stylesheet;
use crate::dom::AttrMap;
use crate::dom::AttrV;
use crate::dom::AttrValue;
use crate::dom::DocumentData;
use crate::dom::Node;
use crate::dom::NodeType;
use crate::dom::NodeV;
use crate::dom::comment;
use crate::dom::doc_free;
use crate::dom::docs_free_seq;
use crate::dom::element;
use crate::dom::nodes_view;
use crate::dom::render_node;
use crate::dom::text;
use crate::dom::upsert;
use crate::scan::POut;
use crate::scan::ParseError;
use crate::scan::ParseErrorKind;
use crate::scan::alnum_cls;
use crate::scan::is_alnum_char;
use crate::scan::is_space_char;
use crate::scan::lemma_seek;
use crate::scan::lemma_seek_exact;
use crate::scan::not_lt_cls;
use crate::scan::not_quote_cls;
use crate::scan::seek;
use crate::scan::seek_alnum;
use crate::scan::seek_not_lt;
use crate::scan::seek_not_quote;
use crate::scan::seek_space;
use crate::scan::space_char;
use crate::scan::space_cls;

verus! {

broadcast use vstd::seq::group_seq_axioms, vstd::std_specs::vec::group_vec_axioms;

/// The tag name whose elements carry inline style text.
pub open spec fn style_tag() -> Seq<char> {
    "style"@
}

/// The tag name of the synthetic element that wraps several top-level
/// nodes.
pub open spec fn html_tag() -> Seq<char> {
    "html"@
}

/// Whether a comment opener `<!--` stands at `pos`.
pub open spec fn comment_starts(s: Seq<char>, pos: int) -> bool {
    &&& pos + 4 <= s.len()
    &&& s[pos] == '<'
    &&& s[pos + 1] == '!'
    &&& s[pos + 2] == '-'
    &&& s[pos + 3] == '-'
}

/// Whether the comment terminator `-->` stands at `i`.
pub open spec fn term_at(s: Seq<char>, i: int) -> bool {
    &&& i + 3 <= s.len()
    &&& s[i] == '-'
    &&& s[i + 1] == '-'
    &&& s[i + 2] == '>'
}

/// The position of the first comment terminator at or after `pos`, if
/// any.
pub open spec fn sp_find_term(s: Seq<char>, pos: int) -> Option<int>
    decreases s.len() - pos,
{
    if pos >= s.len() {
        None
    } else if term_at(s, pos) {
        Some(pos)
    } else {
        sp_find_term(s, pos + 1)
    }
}

/// What `sp_find_term` returns: the first terminator position, within
/// bounds, with no terminator before it; or no position and no
/// terminator anywhere at or after `pos`.
pub proof fn lemma_find_term(s: Seq<char>, pos: int)
    requires
        0 <= pos,
    ensures
        match sp_find_term(s, pos) {
            Some(j) => {
                &&& pos <= j
                &&& j + 3 <= s.len()
                &&& term_at(s, j)
                &&& forall|i: int| pos <= i < j ==> !term_at(s, i)
            },
            None => forall|i: int| pos <= i ==> !term_at(s, i),
        },
    decreases s.len() - pos,
{
    if pos < s.len() && !term_at(s, pos) {
        lemma_find_term(s, pos + 1);
    }
}

/// Grammar of a comment: the opener, the text up to the first
/// terminator, and the terminator, which is not part of the text.
pub open spec fn sp_comment(s: Seq<char>, pos: int) -> POut<NodeV> {
    match sp_find_term(s, pos + 4) {
        Some(j) => POut::Parsed { v: NodeV::Comment(s.subrange(pos + 4, j)), end: j + 3 },
        None => POut::Failed { kind: ParseErrorKind::UnexpectedEndOfInput, pos: s.len() as int },
    }
}

/// Grammar of a quoted attribute value: an opening quote, either single
/// or double, the text up to the matching quote, and that quote.
pub open spec fn sp_attr_value(s: Seq<char>, pos: int) -> POut<Seq<char>> {
    if pos >= s.len() {
        POut::Failed { kind: ParseErrorKind::UnexpectedEndOfInput, pos: s.len() as int }
    } else {
        let q = s[pos];
        if q != '"' && q != '\'' {
            POut::Failed { kind: ParseErrorKind::UnexpectedCharacter, pos }
        } else {
            let e = seek(s, pos + 1, not_quote_cls(q));
            if e >= s.len() {
                POut::Failed { kind: ParseErrorKind::UnexpectedEndOfInput, pos: s.len() as int }
            } else {
                POut::Parsed { v: s.subrange(pos + 1, e), end: e + 1 }
            }
        }
    }
}

/// Grammar of one attribute: a name, then either `=` and a quoted
/// value, or — for a valueless attribute — whitespace or the list's
/// `/` or `>` terminator, which is left unconsumed and the value is
/// empty. Any other character after the name fails the parse.
pub open spec fn sp_attr(s: Seq<char>, pos: int) -> POut<(Seq<char>, Seq<char>)> {
    let e = seek(s, pos, alnum_cls());
    let name = s.subrange(pos, e);
    if e >= s.len() {
        POut::Failed { kind: ParseErrorKind::UnexpectedEndOfInput, pos: s.len() as int }
    } else if s[e] == '=' {
        match sp_attr_value(s, e + 1) {
            POut::Parsed { v, end } => POut::Parsed { v: (name, v), end },
            POut::Failed { kind, pos: q } => POut::Failed { kind, pos: q },
            POut::Exhausted => POut::Exhausted,
        }
    } else if is_space_char(s[e]) || s[e] == '/' || s[e] == '>' {
        POut::Parsed { v: (name, Seq::empty()), end: e }
    } else {
        POut::Failed { kind: ParseErrorKind::UnexpectedCharacter, pos: e }
    }
}

/// Grammar of an attribute list: whitespace-separated attributes until a
/// `>` or `/`, which is not consumed. An attribute with an empty value
/// is stored as implicit; one with a non-empty value keeps its text.
pub open spec fn sp_attributes(
    s: Seq<char>,
    pos: int,
    acc: Seq<(Seq<char>, AttrV)>,
    fuel: nat,
) -> POut<Seq<(Seq<char>, AttrV)>>
    decreases fuel,
{
    if fuel == 0 {
        POut::Exhausted
    } else {
        let p = seek(s, pos, space_cls());
        if p >= s.len() {
            POut::Failed { kind: ParseErrorKind::UnexpectedEndOfInput, pos: s.len() as int }
        } else if s[p] == '>' || s[p] == '/' {
            POut::Parsed { v: acc, end: p }
        } else {
            match sp_attr(s, p) {
                POut::Parsed { v: nv, end: p2 } => {
                    let av = if nv.1.len() == 0 {
                        AttrV::Implicit
                    } else {
                        AttrV::Text(nv.1)
                    };
                    sp_attributes(s, p2, upsert(acc, nv.0, av), (fuel - 1) as nat)
                },
                POut::Failed { kind, pos: q } => POut::Failed { kind, pos: q },
                POut::Exhausted => POut::Exhausted,
            }
        }
    }
}

/// Grammar of a closing tag at `pos`: `</`, a name equal to the opening
/// tag's name, and `>`; yields the finished element.
pub open spec fn sp_closing(
    s: Seq<char>,
    pos: int,
    tag: Seq<char>,
    attrs: Seq<(Seq<char>, AttrV)>,
    kids: Seq<NodeV>,
) -> POut<NodeV> {
    if pos >= s.len() {
        POut::Failed { kind: ParseErrorKind::UnexpectedEndOfInput, pos: s.len() as int }
    } else if s[pos] != '<' {
        POut::Failed { kind: ParseErrorKind::UnexpectedCharacter, pos }
    } else if pos + 1 >= s.len() {
        POut::Failed { kind: ParseErrorKind::UnexpectedEndOfInput, pos: s.len() as int }
    } else if s[pos + 1] != '/' {
        POut::Failed { kind: ParseErrorKind::UnexpectedCharacter, pos: pos + 1 }
    } else {
        let ce = seek(s, pos + 2, alnum_cls());
        if s.subrange(pos + 2, ce) != tag {
            POut::Failed { kind: ParseErrorKind::MismatchedClosingTag, pos: pos + 2 }
        } else if ce >= s.len() {
            POut::Failed { kind: ParseErrorKind::UnexpectedEndOfInput, pos: s.len() as int }
        } else if s[ce] != '>' {
            POut::Failed { kind: ParseErrorKind::UnexpectedCharacter, pos: ce }
        } else {
            POut::Parsed { v: NodeV::Element { tag, attrs, children: kids }, end: ce + 1 }
        }
    }
}

/// The text of the first child, when the first child is a text node.
pub open spec fn style_text(kids: Seq<NodeV>) -> Option<Seq<char>> {
    if kids.len() > 0 && kids[0] is Text {
        Some(kids[0]->Text_0)
    } else {
        None
    }
}

/// Grammar of an element: `<`, a tag name, attributes, then either `/>`
/// for a self-closing element, or `>`, child nodes, and a matching
/// closing tag. A `style` element whose first child is text has that
/// text parsed as a style sheet; a failure there fails the element, at
/// the failure's position within the style text shifted by the text's
/// start, so the reported position is document-relative.
pub open spec fn sp_element(s: Seq<char>, pos: int, fuel: nat) -> POut<NodeV>
    decreases fuel, 0int,
{
    if fuel == 0 {
        POut::Exhausted
    } else if pos >= s.len() {
        POut::Failed { kind: ParseErrorKind::UnexpectedEndOfInput, pos: s.len() as int }
    } else if s[pos] != '<' {
        POut::Failed { kind: ParseErrorKind::UnexpectedCharacter, pos }
    } else {
        let tn_end = seek(s, pos + 1, alnum_cls());
        let tag = s.subrange(pos + 1, tn_end);
        match sp_attributes(s, tn_end, Seq::empty(), fuel) {
            POut::Parsed { v: attrs, end: pa } => {
                if pa >= s.len() {
                    POut::Failed { kind: ParseErrorKind::UnexpectedEndOfInput, pos: s.len() as int }
                } else if s[pa] == '/' {
                    if pa + 1 >= s.len() {
                        POut::Failed {
                            kind: ParseErrorKind::UnexpectedEndOfInput,
                            pos: s.len() as int,
                        }
                    } else if s[pa + 1] != '>' {
                        POut::Failed { kind: ParseErrorKind::UnexpectedCharacter, pos: pa + 1 }
                    } else {
                        POut::Parsed {
                            v: NodeV::Element { tag, attrs, children: Seq::empty() },
                            end: pa + 2,
                        }
                    }
                } else if s[pa] != '>' {
                    POut::Failed { kind: ParseErrorKind::UnexpectedCharacter, pos: pa }
                } else {
                    match sp_nodes(s, pa + 1, (fuel - 1) as nat) {
                        POut::Parsed { v: kids, end: pk } => {
                            if tag == style_tag() && style_text(kids) is Some {
                                match sp_stylesheet(style_text(kids)->Some_0) {
                                    POut::Parsed { v: _, end: _ } => sp_closing(
                                        s,
                                        pk,
                                        tag,
                                        attrs,
                                        kids,
                                    ),
                                    POut::Failed { kind, pos: q } => POut::Failed {
                                        kind,
                                        pos: seek(s, pa + 1, space_cls()) + q,
                                    },
                                    POut::Exhausted => POut::Exhausted,
                                }
                            } else {
                                sp_closing(s, pk, tag, attrs, kids)
                            }
                        },
                        POut::Failed { kind, pos: q } => POut::Failed { kind, pos: q },
                        POut::Exhausted => POut::Exhausted,
                    }
                }
            },
            POut::Failed { kind, pos: q } => POut::Failed { kind, pos: q },
            POut::Exhausted => POut::Exhausted,
        }
    }
}

/// Grammar of one node: a comment opener begins a comment, a `<` begins
/// an element, and anything else begins a maximal text run up to the
/// next `<`.
pub open spec fn sp_node(s: Seq<char>, pos: int, fuel: nat) -> POut<NodeV>
    decreases fuel, 1int,
{
    if fuel == 0 {
        POut::Exhausted
    } else if comment_starts(s, pos) {
        sp_comment(s, pos)
    } else if pos >= s.len() {
        POut::Failed { kind: ParseErrorKind::UnexpectedEndOfInput, pos: s.len() as int }
    } else if s[pos] == '<' {
        sp_element(s, pos, fuel)
    } else {
        let e = seek(s, pos, not_lt_cls());
        POut::Parsed { v: NodeV::Text(s.subrange(pos, e)), end: e }
    }
}

/// Whether a node sequence ends at `p`: the input is exhausted or a
/// closing-tag marker `</` follows.
pub open spec fn nodes_end(s: Seq<char>, p: int) -> bool {
    p >= s.len() || (s[p] == '<' && p + 1 < s.len() && s[p + 1] == '/')
}

/// Grammar of a node sequence: nodes separated by whitespace, ended by
/// the end of the input or a closing-tag marker, which is not consumed.
pub open spec fn sp_nodes(s: Seq<char>, pos: int, fuel: nat) -> POut<Seq<NodeV>>
    decreases fuel, 2int,
{
    if fuel == 0 {
        POut::Exhausted
    } else {
        let p = seek(s, pos, space_cls());
        if nodes_end(s, p) {
            POut::Parsed { v: Seq::empty(), end: p }
        } else {
            match sp_node(s, p, fuel) {
                POut::Parsed { v: n, end: p2 } => match sp_nodes(s, p2, (fuel - 1) as nat) {
                    POut::Parsed { v: ns, end: p3 } => POut::Parsed {
                        v: seq![n] + ns,
                        end: p3,
                    },
                    POut::Failed { kind, pos: q } => POut::Failed { kind, pos: q },
                    POut::Exhausted => POut::Exhausted,
                },
                POut::Failed { kind, pos: q } => POut::Failed { kind, pos: q },
                POut::Exhausted => POut::Exhausted,
            }
        }
    }
}

/// What parsing a whole document string yields: the top-level node
/// sequence, returned directly when it has exactly one node, and wrapped
/// in a synthetic `html` element with no attributes otherwise. The
/// recursion allowance is one more than the input length, which the
/// parser's contract shows is never exhausted.
pub open spec fn sp_document(s: Seq<char>) -> POut<NodeV> {
    match sp_nodes(s, 0, (s.len() + 1) as nat) {
        POut::Parsed { v: ns, end } => {
            if ns.len() == 1 {
                POut::Parsed { v: ns[0], end }
            } else {
                POut::Parsed {
                    v: NodeV::Element { tag: html_tag(), attrs: Seq::empty(), children: ns },
                    end,
                }
            }
        },
        POut::Failed { kind, pos: q } => POut::Failed { kind, pos: q },
        POut::Exhausted => POut::Exhausted,
    }
}

/// The style sheets contributed by a tree, in the order the parser
/// forwards them: those of the children first, in document order, then
/// the node's own sheet when it is a `style` element whose first child
/// is text that parses as a style sheet.
pub open spec fn sheets_of(n: NodeV) -> Seq<SheetV>
    decreases n,
{
    match n {
        NodeV::Element { tag, attrs, children } => sheets_of_seq(children) + (
        if tag == style_tag() && style_text(children) is Some {
            match sp_stylesheet(style_text(children)->Some_0) {
                POut::Parsed { v: rs, end } => seq![SheetV { rules: rs }],
                POut::Failed { kind, pos } => Seq::empty(),
                POut::Exhausted => Seq::empty(),
            }
        } else {
            Seq::empty()
        }),
        NodeV::Text(_) => Seq::empty(),
        NodeV::Comment(_) => Seq::empty(),
    }
}

/// The style sheets contributed by a sequence of trees, in order.
pub open spec fn sheets_of_seq(ns: Seq<NodeV>) -> Seq<SheetV>
    decreases ns,
{
    if ns.len() == 0 {
        Seq::empty()
    } else {
        sheets_of(ns[0]) + sheets_of_seq(ns.subrange(1, ns.len() as int))
    }
}

/// The sheets of a non-empty sequence are the first tree's sheets
/// followed by the rest's.
pub proof fn lemma_sheets_of_cons(n: NodeV, ns: Seq<NodeV>)
    ensures
        sheets_of_seq(seq![n] + ns) == sheets_of(n) + sheets_of_seq(ns),
{
    let all = seq![n] + ns;
    assert(all.len() > 0);
    assert(all[0] == n);
    assert(all.subrange(1, all.len() as int) =~= ns);
}

/// A parsed element is always an element value, never text or a
/// comment.
proof fn lemma_element_yields_element(s: Seq<char>, pos: int, fuel: nat)
    ensures
        sp_element(s, pos, fuel) matches POut::Parsed { v, end } ==> v is Element,
{
}

/// When a parsed node sequence begins with a text node, that text is the
/// maximal run from the sequence's first non-whitespace position, so the
/// run lies within the input.
proof fn lemma_first_text_child_position(
    s: Seq<char>,
    pos: int,
    fuel: nat,
    kids: Seq<NodeV>,
    pk: int,
    t: Seq<char>,
)
    requires
        0 <= pos <= s.len(),
        sp_nodes(s, pos, fuel) == (POut::Parsed { v: kids, end: pk }),
        kids.len() > 0,
        kids[0] == NodeV::Text(t),
    ensures
        seek(s, pos, space_cls()) + t.len() <= s.len(),
{
    let p1 = seek(s, pos, space_cls());
    lemma_seek(s, pos, space_cls());
    assert(fuel != 0);
    assert(!nodes_end(s, p1));
    match sp_node(s, p1, fuel) {
        POut::Parsed { v: n0, end: p2 } => {
            assert(kids[0] == n0);
            if comment_starts(s, p1) {
                assert(false);
            } else if p1 >= s.len() {
                assert(false);
            } else if s[p1] == '<' {
                lemma_element_yields_element(s, p1, fuel);
                assert(false);
            } else {
                let e1 = seek(s, p1, not_lt_cls());
                lemma_seek(s, p1, not_lt_cls());
                assert(n0 == NodeV::Text(s.subrange(p1, e1)));
                assert(t.len() == e1 - p1);
            }
        },
        POut::Failed { kind, pos: q } => {
            assert(false);
        },
        POut::Exhausted => {
            assert(false);
        },
    }
}

/// Law: the text of a parsed comment never contains the comment
/// terminator; the terminator that ends the comment is not part of the
/// text.
pub proof fn lemma_comment_text_free_of_terminator(
    s: Seq<char>,
    pos: int,
    t: Seq<char>,
    end: int,
)
    requires
        0 <= pos,
        sp_comment(s, pos) == (POut::Parsed { v: NodeV::Comment(t), end }),
    ensures
        forall|i: int|
            0 <= i <= t.len() - 3 ==> !(#[trigger] t[i] == '-' && t[i + 1] == '-' && t[i + 2]
                == '>'),
{
    lemma_find_term(s, pos + 4);
    let j = sp_find_term(s, pos + 4)->Some_0;
    assert(t == s.subrange(pos + 4, j));
    assert forall|i: int| 0 <= i <= t.len() - 3 implies !(#[trigger] t[i] == '-' && t[i + 1]
        == '-' && t[i + 2] == '>') by {
        let g = pos + 4 + i;
        assert(!term_at(s, g));
        assert(t[i] == s[g] && t[i + 1] == s[g + 1] && t[i + 2] == s[g + 2]);
    }
}

/// Law: a parsed comment's text is the shortest text `t` such that the
/// input at the opener reads `<!--`, then `t`, then `-->`; the parse
/// ends right after that terminator.
pub proof fn lemma_comment_shortest_text(s: Seq<char>, pos: int, t: Seq<char>, end: int)
    requires
        0 <= pos,
        sp_comment(s, pos) == (POut::Parsed { v: NodeV::Comment(t), end }),
    ensures
        s.subrange(pos + 4, pos + 4 + t.len()) == t,
        term_at(s, pos + 4 + t.len()),
        forall|j: int| pos + 4 <= j < pos + 4 + t.len() ==> !term_at(s, j),
        end == pos + 7 + t.len(),
{
    lemma_find_term(s, pos + 4);
}

/// Law: when no comment terminator occurs at or after the opener's text,
/// the comment parse fails with an unexpected end of input at the end of
/// the input, and no comment value comes back.
pub proof fn lemma_comment_unterminated(s: Seq<char>, pos: int)
    requires
        0 <= pos,
        forall|j: int| pos + 4 <= j ==> !term_at(s, j),
    ensures
        sp_comment(s, pos) == (POut::Failed::<NodeV> {
            kind: ParseErrorKind::UnexpectedEndOfInput,
            pos: s.len() as int,
        }),
{
    lemma_find_term(s, pos + 4);
    if sp_find_term(s, pos + 4) is Some {
        let j = sp_find_term(s, pos + 4)->Some_0;
        assert(term_at(s, j));
        assert(false);
    }
}

/// Law: when the top-level node sequence has exactly one node, the
/// document parse yields that node unwrapped; otherwise it yields a
/// synthetic `html` element with no attributes whose children are the
/// top-level nodes.
pub proof fn lemma_root_wrapping(s: Seq<char>, ns: Seq<NodeV>, end: int)
    requires
        sp_nodes(s, 0, (s.len() + 1) as nat) == (POut::Parsed { v: ns, end }),
    ensures
        ns.len() == 1 ==> sp_document(s) == (POut::Parsed { v: ns[0], end }),
        ns.len() != 1 ==> sp_document(s) == (POut::Parsed {
            v: NodeV::Element { tag: html_tag(), attrs: Seq::empty(), children: ns },
            end,
        }),
{
}

/// Law (structural round trip, childless case): the pretty-printed text
/// of an element with no attributes and no children parses back to that
/// same element, for any non-empty alphanumeric tag name.
pub proof fn lemma_print_parse_round_trip_childless(tag: Seq<char>)
    requires
        tag.len() > 0,
        forall|i: int| 0 <= i < tag.len() ==> is_alnum_char(#[trigger] tag[i]),
    ensures
        ({
            let elem = NodeV::Element { tag, attrs: Seq::empty(), children: Seq::empty() };
            let printed = render_node(elem, Seq::empty());
            sp_document(printed) matches POut::Parsed { v, end } && v == elem
        }),
{
    let elem = NodeV::Element { tag, attrs: Seq::empty(), children: Seq::empty() };
    let printed = render_node(elem, Seq::empty());
    reveal_strlit("<");
    reveal_strlit("></");
    reveal_strlit(">\n");
    let s = "<"@ + tag + "></"@ + tag + ">\n"@;
    assert(printed =~= s);
    let gl = tag.len() as int;
    let n = s.len() as int;
    assert(n == 2 * gl + 6);
    assert(s[0] == '<');
    assert(forall|i: int| 0 <= i < gl ==> s[1 + i] == #[trigger] tag[i]);
    assert(s[1 + gl] == '>');
    assert(s[2 + gl] == '<');
    assert(s[3 + gl] == '/');
    assert(forall|i: int| 0 <= i < gl ==> s[4 + gl + i] == #[trigger] tag[i]);
    assert(s[4 + 2 * gl] == '>');
    assert(s[5 + 2 * gl] == '\n');
    let fuel0 = (s.len() + 1) as nat;

    // No whitespace, comment opener, or closing-tag marker at the start.
    assert(!is_space_char('<'));
    assert(is_alnum_char(tag[0]));
    assert(s[1] != '!' && s[1] != '/' && !is_space_char(s[1]));
    lemma_seek_exact(s, 0, space_cls(), 0);
    assert(!comment_starts(s, 0));
    assert(!nodes_end(s, 0));

    // The tag name is the maximal alphanumeric run after the `<`.
    assert(!is_alnum_char('>'));
    lemma_seek_exact(s, 1, alnum_cls(), 1 + gl);
    assert(s.subrange(1, 1 + gl) =~= tag);

    // The attribute list is empty: the `>` ends it at once.
    assert(!is_space_char('>'));
    lemma_seek_exact(s, 1 + gl, space_cls(), 1 + gl);
    assert(sp_attributes(s, 1 + gl, Seq::empty(), fuel0) == (POut::Parsed::<
        Seq<(Seq<char>, AttrV)>,
    > { v: Seq::empty(), end: 1 + gl }));

    // The child sequence is empty: a closing-tag marker follows the `>`.
    lemma_seek_exact(s, 2 + gl, space_cls(), 2 + gl);
    assert(nodes_end(s, 2 + gl));
    assert(sp_nodes(s, 2 + gl, (fuel0 - 1) as nat) == (POut::Parsed::<Seq<NodeV>> {
        v: Seq::empty(),
        end: 2 + gl,
    }));

    // The closing tag matches the opening tag.
    lemma_seek_exact(s, 4 + gl, alnum_cls(), 4 + 2 * gl);
    assert(s.subrange(4 + gl, 4 + 2 * gl) =~= tag);
    assert(style_text(Seq::<NodeV>::empty()) is None);
    assert(sp_closing(s, 2 + gl, tag, Seq::empty(), Seq::empty()) == (POut::Parsed::<NodeV> {
        v: elem,
        end: 5 + 2 * gl,
    }));
    assert(sp_element(s, 0, fuel0) == (POut::Parsed::<NodeV> { v: elem, end: 5 + 2 * gl }));
    assert(sp_node(s, 0, fuel0) == (POut::Parsed::<NodeV> { v: elem, end: 5 + 2 * gl }));

    // Only the final newline follows, so the node sequence has one node.
    assert(is_space_char('\n'));
    lemma_seek_exact(s, 5 + 2 * gl, space_cls(), n);
    assert(nodes_end(s, n));
    assert(sp_nodes(s, 5 + 2 * gl, (fuel0 - 1) as nat) == (POut::Parsed::<Seq<NodeV>> {
        v: Seq::empty(),
        end: n,
    }));
    assert(seq![elem] + Seq::<NodeV>::empty() =~= seq![elem]);
    assert(sp_nodes(s, 0, fuel0) == (POut::Parsed::<Seq<NodeV>> { v: seq![elem], end: n }));
    assert(sp_document(s) == (POut::Parsed::<NodeV> { v: elem, end: n }));
}

/// The markup parser's state: a cursor into the input, the input's
/// character length, and the style sheets collected so far.
struct Parser {
    pos: usize,
    len: usize,
    input: String,
    sheets: Vec<StyleSheet>,
}

impl Parser {
    /// The cursor is within the input and the cached length is right.
    spec fn wf(&self) -> bool {
        &&& self.pos as int <= self.input@.len()
        &&& self.len as int == self.input@.len()
    }

    /// The views of the collected style sheets.
    spec fn sv(&self) -> Seq<SheetV> {
        sheets_view(self.sheets@)
    }

    /// The input and its cached length are those of `o`.
    spec fn keeps(&self, o: &Parser) -> bool {
        &&& self.input == o.input
        &&& self.len == o.len
    }

    /// The character at the cursor.
    fn next_char(&self) -> (c: char)
        requires
            self.wf(),
            self.pos < self.len,
        ensures
            c == self.input@[self.pos as int],
    {
        self.input.as_str().get_char(self.pos)
    }

    /// Whether the cursor has reached the end of the input.
    fn eof(&self) -> (r: bool)
        requires
            self.wf(),
        ensures
            r == (self.pos as int >= self.input@.len()),
    {
        self.pos >= self.len
    }

    /// Returns the character at the cursor and advances past it.
    fn consume_char(&mut self) -> (c: char)
        requires
            old(self).wf(),
            old(self).pos < old(self).len,
        ensures
            final(self).wf(),
            final(self).keeps(old(self)),
            final(self).sheets == old(self).sheets,
            final(self).pos == old(self).pos + 1,
            c == old(self).input@[old(self).pos as int],
    {
        let c = self.input.as_str().get_char(self.pos);
        self.pos = self.pos + 1;
        c
    }

    /// Advances the cursor past a maximal run of whitespace.
    fn consume_whitespace(&mut self)
        requires
            old(self).wf(),
        ensures
            final(self).wf(),
            final(self).keeps(old(self)),
            final(self).sheets == old(self).sheets,
            final(self).pos as int == seek(
                old(self).input@,
                old(self).pos as int,
                space_cls(),
            ),
            old(self).pos <= final(self).pos,
    {
        self.pos = seek_space(self.input.as_str(), self.pos);
    }

    /// Reads a maximal run of ASCII letters and digits.
    fn parse_tag_name(&mut self) -> (r: String)
        requires
            old(self).wf(),
        ensures
            final(self).wf(),
            final(self).keeps(old(self)),
            final(self).sheets == old(self).sheets,
            final(self).pos as int == seek(
                old(self).input@,
                old(self).pos as int,
                alnum_cls(),
            ),
            old(self).pos <= final(self).pos,
            r@ == old(self).input@.subrange(old(self).pos as int, final(self).pos as int),
    {
        let e = seek_alnum(self.input.as_str(), self.pos);
        let t = self.input.as_str().substring_char(self.pos, e).to_owned();
        self.pos = e;
        t
    }

    /// Whether a comment opener stands at the cursor.
    fn starts_with_comment(&self) -> (r: bool)
        requires
            self.wf(),
        ensures
            r == comment_starts(self.input@, self.pos as int),
    {
        if self.len - self.pos >= 4 {
            let s = self.input.as_str();
            s.get_char(self.pos) == '<' && s.get_char(self.pos + 1) == '!' && s.get_char(
                self.pos + 2,
            ) == '-' && s.get_char(self.pos + 3) == '-'
        } else {
            false
        }
    }

    /// Reads a maximal text run up to the next `<`.
    fn parse_text(&mut self) -> (r: Node)
        requires
            old(self).wf(),
        ensures
            final(self).wf(),
            final(self).keeps(old(self)),
            final(self).sheets == old(self).sheets,
            final(self).pos as int == seek(
                old(self).input@,
                old(self).pos as int,
                not_lt_cls(),
            ),
            old(self).pos <= final(self).pos,
            r@ == NodeV::Text(
                old(self).input@.subrange(old(self).pos as int, final(self).pos as int),
            ),
            doc_free(r),
    {
        let e = seek_not_lt(self.input.as_str(), self.pos);
        let t = self.input.as_str().substring_char(self.pos, e).to_owned();
        self.pos = e;
        text(t)
    }

    /// Reads a comment, whose opener stands at the cursor.
    fn parse_comment(&mut self) -> (r: Result<Node, ParseError>)
        requires
            old(self).wf(),
            comment_starts(old(self).input@, old(self).pos as int),
        ensures
            final(self).wf(),
            final(self).keeps(old(self)),
            final(self).sheets == old(self).sheets,
            match r {
                Ok(n) => {
                    &&& sp_comment(old(self).input@, old(self).pos as int) == (POut::Parsed {
                        v: n@,
                        end: final(self).pos as int,
                    })
                    &&& old(self).pos < final(self).pos
                    &&& doc_free(n)
                },
                Err(e) => sp_comment(old(self).input@, old(self).pos as int) == (POut::Failed::<
                    NodeV,
                > { kind: e.kind, pos: e.pos as int }),
            },
    {
        let ghost s = self.input@;
        let start = self.pos;
        let mut cur = start + 4;
        loop
            invariant
                self.wf(),
                *self == *old(self),
                start == old(self).pos,
                start + 4 <= cur,
                cur as int <= s.len(),
                s == self.input@,
                sp_find_term(s, start as int + 4) == sp_find_term(s, cur as int),
            decreases self.len - cur,
        {
            if cur >= self.len {
                return Err(
                    ParseError { kind: ParseErrorKind::UnexpectedEndOfInput, pos: self.len },
                );
            }
            let c = self.input.as_str().get_char(cur);
            let mut found = false;
            if c == '-' && self.len - cur >= 3 {
                let c1 = self.input.as_str().get_char(cur + 1);
                let c2 = self.input.as_str().get_char(cur + 2);
                if c1 == '-' && c2 == '>' {
                    found = true;
                }
            }
            if found {
                assert(term_at(s, cur as int));
                let t = self.input.as_str().substring_char(start + 4, cur).to_owned();
                self.pos = cur + 3;
                return Ok(comment(t));
            }
            assert(!term_at(s, cur as int));
            cur = cur + 1;
        }
    }

    /// Reads a quoted attribute value.
    fn parse_attr_value(&mut self) -> (r: Result<String, ParseError>)
        requires
            old(self).wf(),
        ensures
            final(self).wf(),
            final(self).keeps(old(self)),
            final(self).sheets == old(self).sheets,
            match r {
                Ok(v) => {
                    &&& sp_attr_value(old(self).input@, old(self).pos as int) == (POut::Parsed {
                        v: v@,
                        end: final(self).pos as int,
                    })
                    &&& old(self).pos < final(self).pos
                },
                Err(e) => sp_attr_value(old(self).input@, old(self).pos as int) == (POut::Failed::<
                    Seq<char>,
                > { kind: e.kind, pos: e.pos as int }),
            },
    {
        if self.pos >= self.len {
            return Err(ParseError { kind: ParseErrorKind::UnexpectedEndOfInput, pos: self.len });
        }
        let q = self.consume_char();
        if q != '"' && q != '\'' {
            return Err(
                ParseError { kind: ParseErrorKind::UnexpectedCharacter, pos: self.pos - 1 },
            );
        }
        let e = seek_not_quote(self.input.as_str(), q, self.pos);
        if e >= self.len {
            return Err(ParseError { kind: ParseErrorKind::UnexpectedEndOfInput, pos: self.len });
        }
        let v = self.input.as_str().substring_char(self.pos, e).to_owned();
        self.pos = e + 1;
        Ok(v)
    }

    /// Reads one attribute: a name, then `=` and a quoted value, or an
    /// empty value for a valueless attribute, whose following whitespace
    /// or terminator stays unconsumed.
    fn parse_attr(&mut self) -> (r: Result<(String, String), ParseError>)
        requires
            old(self).wf(),
        ensures
            final(self).wf(),
            final(self).keeps(old(self)),
            final(self).sheets == old(self).sheets,
            match r {
                Ok(nv) => {
                    &&& sp_attr(old(self).input@, old(self).pos as int) == (POut::Parsed {
                        v: (nv.0@, nv.1@),
                        end: final(self).pos as int,
                    })
                    &&& old(self).pos <= final(self).pos
                    &&& ((old(self).pos as int) < old(self).input@.len() && !is_space_char(
                        old(self).input@[old(self).pos as int],
                    ) && old(self).input@[old(self).pos as int] != '/'
                        && old(self).input@[old(self).pos as int] != '>' ==> old(self).pos
                        < final(self).pos)
                },
                Err(e) => sp_attr(old(self).input@, old(self).pos as int) == (POut::Failed::<
                    (Seq<char>, Seq<char>),
                > { kind: e.kind, pos: e.pos as int }),
            },
    {
        let ghost s = self.input@;
        let ghost pos0 = self.pos as int;
        let name = self.parse_tag_name();
        if self.pos >= self.len {
            return Err(ParseError { kind: ParseErrorKind::UnexpectedEndOfInput, pos: self.len });
        }
        let c = self.next_char();
        if c == '=' {
            let _ = self.consume_char();
            match self.parse_attr_value() {
                Ok(v) => Ok((name, v)),
                Err(e) => Err(e),
            }
        } else if space_char(c) || c == '/' || c == '>' {
            proof {
                if (pos0 as int) < s.len() && !is_space_char(s[pos0]) && s[pos0] != '/' && s[pos0]
                    != '>' {
                    assert(self.pos as int != pos0);
                }
            }
            Ok((name, String::new()))
        } else {
            Err(ParseError { kind: ParseErrorKind::UnexpectedCharacter, pos: self.pos })
        }
    }

    /// Reads the attribute list of an opening tag, extending `acc`, and
    /// stops before the `>` or `/` that ends it.
    fn parse_attributes(&mut self, acc: AttrMap, Ghost(fuel): Ghost<nat>) -> (r: Result<
        AttrMap,
        ParseError,
    >)
        requires
            old(self).wf(),
            fuel >= old(self).input@.len() - old(self).pos + 1,
        ensures
            final(self).wf(),
            final(self).keeps(old(self)),
            final(self).sheets == old(self).sheets,
            match r {
                Ok(m) => {
                    &&& sp_attributes(old(self).input@, old(self).pos as int, acc@, fuel)
                        == (POut::Parsed { v: m@, end: final(self).pos as int })
                    &&& old(self).pos <= final(self).pos
                    &&& (final(self).pos as int) < final(self).input@.len()
                },
                Err(e) => sp_attributes(old(self).input@, old(self).pos as int, acc@, fuel)
                    == (POut::Failed::<Seq<(Seq<char>, AttrV)>> {
                    kind: e.kind,
                    pos: e.pos as int,
                }),
            },
        decreases self.input@.len() - self.pos,
    {
        let ghost s = self.input@;
        let ghost pos0 = self.pos as int;
        self.consume_whitespace();
        if self.pos >= self.len {
            return Err(ParseError { kind: ParseErrorKind::UnexpectedEndOfInput, pos: self.len });
        }
        proof {
            lemma_seek(s, pos0, space_cls());
            assert(!is_space_char(s[self.pos as int]));
        }
        let c = self.next_char();
        if c == '>' || c == '/' {
            return Ok(acc);
        }
        let nv = match self.parse_attr() {
            Ok(p) => p,
            Err(e) => {
                return Err(e);
            },
        };
        let is_empty = nv.1.as_str().is_empty();
        let av = if is_empty {
            AttrValue::Implicit
        } else {
            AttrValue::Text(nv.1)
        };
        let mut m = acc;
        m.insert(nv.0, av);
        self.parse_attributes(m, Ghost((fuel - 1) as nat))
    }

    /// Reads an element whose `<` stands at the cursor: tag name,
    /// attributes, `/>` or `>` with children and a matching closing tag.
    /// A `style` element whose first child is text has that text parsed
    /// and the resulting sheet appended to the collection.
    fn parse_element(&mut self, Ghost(fuel): Ghost<nat>) -> (r: Result<Node, ParseError>)
        requires
            old(self).wf(),
            fuel >= old(self).input@.len() - old(self).pos + 1,
        ensures
            final(self).wf(),
            final(self).keeps(old(self)),
            match r {
                Ok(n) => {
                    &&& sp_element(old(self).input@, old(self).pos as int, fuel) == (POut::Parsed {
                        v: n@,
                        end: final(self).pos as int,
                    })
                    &&& old(self).pos < final(self).pos
                    &&& doc_free(n)
                    &&& final(self).sv() == old(self).sv() + sheets_of(n@)
                },
                Err(e) => sp_element(old(self).input@, old(self).pos as int, fuel)
                    == (POut::Failed::<NodeV> { kind: e.kind, pos: e.pos as int }),
            },
        decreases self.input@.len() - self.pos, 0int,
    {
        if self.pos >= self.len {
            return Err(ParseError { kind: ParseErrorKind::UnexpectedEndOfInput, pos: self.len });
        }
        let c0 = self.consume_char();
        if c0 != '<' {
            return Err(
                ParseError { kind: ParseErrorKind::UnexpectedCharacter, pos: self.pos - 1 },
            );
        }
        let tag_name = self.parse_tag_name();
        let m0 = AttrMap::new();
        let attrs = match self.parse_attributes(m0, Ghost(fuel)) {
            Ok(m) => m,
            Err(e) => {
                return Err(e);
            },
        };
        let c = self.consume_char();
        if c == '/' {
            if self.pos >= self.len {
                return Err(
                    ParseError { kind: ParseErrorKind::UnexpectedEndOfInput, pos: self.len },
                );
            }
            let c2 = self.consume_char();
            if c2 != '>' {
                return Err(
                    ParseError { kind: ParseErrorKind::UnexpectedCharacter, pos: self.pos - 1 },
                );
            }
            let node = element(tag_name, attrs, Vec::new());
            proof {
                assert(nodes_view(Seq::<Node>::empty()) =~= Seq::<NodeV>::empty());
                assert(sheets_of(node@) =~= Seq::<SheetV>::empty());
                assert(self.sv() =~= old(self).sv() + sheets_of(node@));
            }
            return Ok(node);
        }
        if c != '>' {
            return Err(
                ParseError { kind: ParseErrorKind::UnexpectedCharacter, pos: self.pos - 1 },
            );
        }
        let kids_start = self.pos;
        let ghost s = self.input@;
        let children = match self.parse_nodes(Ghost((fuel - 1) as nat)) {
            Ok(k) => k,
            Err(e) => {
                return Err(e);
            },
        };
        let ghost kidsv = nodes_view(children@);
        let ghost pk = self.pos as int;
        let ghost sv_mid = self.sv();
        let style_lit: String = String::from_str("style");
        let is_style = tag_name == style_lit;
        if is_style && children.len() > 0 {
            match &children[0].node_type {
                NodeType::TextNode(t) => {
                    proof {
                        assert(kidsv[0] == children@[0]@);
                        assert(style_text(kidsv) == Some(t@));
                    }
                    match css::parse(t.as_str()) {
                        Ok(sheet) => {
                            self.sheets.push(sheet);
                            proof {
                                assert(self.sv() =~= sv_mid.push(sheet@));
                            }
                        },
                        Err(er) => {
                            proof {
                                lemma_first_text_child_position(
                                    s,
                                    kids_start as int,
                                    (fuel - 1) as nat,
                                    kidsv,
                                    pk,
                                    t@,
                                );
                            }
                            let off = seek_space(self.input.as_str(), kids_start);
                            return Err(ParseError { kind: er.kind, pos: off + er.pos });
                        },
                    }
                },
                _ => {
                    proof {
                        assert(doc_free(children@[0]));
                        assert(!(children@[0].node_type is DocumentNode));
                        assert(kidsv[0] == children@[0]@);
                        assert(style_text(kidsv) is None);
                    }
                },
            }
        } else {
            proof {
                if is_style {
                    assert(kidsv.len() == 0);
                    assert(style_text(kidsv) is None);
                }
            }
        }
        if self.pos >= self.len {
            return Err(ParseError { kind: ParseErrorKind::UnexpectedEndOfInput, pos: self.len });
        }
        let c3 = self.consume_char();
        if c3 != '<' {
            return Err(
                ParseError { kind: ParseErrorKind::UnexpectedCharacter, pos: self.pos - 1 },
            );
        }
        if self.pos >= self.len {
            return Err(ParseError { kind: ParseErrorKind::UnexpectedEndOfInput, pos: self.len });
        }
        let c4 = self.consume_char();
        if c4 != '/' {
            return Err(
                ParseError { kind: ParseErrorKind::UnexpectedCharacter, pos: self.pos - 1 },
            );
        }
        let cn_start = self.pos;
        let close_name = self.parse_tag_name();
        if !(close_name == tag_name) {
            return Err(ParseError { kind: ParseErrorKind::MismatchedClosingTag, pos: cn_start });
        }
        if self.pos >= self.len {
            return Err(ParseError { kind: ParseErrorKind::UnexpectedEndOfInput, pos: self.len });
        }
        let c5 = self.consume_char();
        if c5 != '>' {
            return Err(
                ParseError { kind: ParseErrorKind::UnexpectedCharacter, pos: self.pos - 1 },
            );
        }
        let node = element(tag_name, attrs, children);
        proof {
            assert(self.sv() =~= old(self).sv() + sheets_of(node@));
        }
        Ok(node)
    }

    /// Reads one node, dispatching on the lookahead: a comment opener, a
    /// `<` for an element, or a text run.
    fn parse_node(&mut self, Ghost(fuel): Ghost<nat>) -> (r: Result<Node, ParseError>)
        requires
            old(self).wf(),
            fuel >= old(self).input@.len() - old(self).pos + 1,
        ensures
            final(self).wf(),
            final(self).keeps(old(self)),
            match r {
                Ok(n) => {
                    &&& sp_node(old(self).input@, old(self).pos as int, fuel) == (POut::Parsed {
                        v: n@,
                        end: final(self).pos as int,
                    })
                    &&& old(self).pos < final(self).pos
                    &&& doc_free(n)
                    &&& final(self).sv() == old(self).sv() + sheets_of(n@)
                },
                Err(e) => sp_node(old(self).input@, old(self).pos as int, fuel) == (POut::Failed::<
                    NodeV,
                > { kind: e.kind, pos: e.pos as int }),
            },
        decreases self.input@.len() - self.pos, 1int,
    {
        let ghost s = self.input@;
        let ghost pos0 = self.pos as int;
        if self.starts_with_comment() {
            match self.parse_comment() {
                Ok(n) => {
                    proof {
                        assert(sheets_of(n@) =~= Seq::<SheetV>::empty());
                        assert(self.sv() =~= old(self).sv() + sheets_of(n@));
                    }
                    Ok(n)
                },
                Err(e) => Err(e),
            }
        } else if self.pos >= self.len {
            Err(ParseError { kind: ParseErrorKind::UnexpectedEndOfInput, pos: self.len })
        } else if self.next_char() == '<' {
            self.parse_element(Ghost(fuel))
        } else {
            let n = self.parse_text();
            proof {
                lemma_seek(s, pos0 + 1, not_lt_cls());
                assert(seek(s, pos0, not_lt_cls()) == seek(s, pos0 + 1, not_lt_cls()));
                assert(sheets_of(n@) =~= Seq::<SheetV>::empty());
                assert(self.sv() =~= old(self).sv() + sheets_of(n@));
            }
            Ok(n)
        }
    }

    /// Reads a node sequence, skipping whitespace between nodes, until
    /// the end of the input or a closing-tag marker, which is not
    /// consumed.
    fn parse_nodes(&mut self, Ghost(fuel): Ghost<nat>) -> (r: Result<Vec<Node>, ParseError>)
        requires
            old(self).wf(),
            fuel >= old(self).input@.len() - old(self).pos + 1,
        ensures
            final(self).wf(),
            final(self).keeps(old(self)),
            match r {
                Ok(ns) => {
                    &&& sp_nodes(old(self).input@, old(self).pos as int, fuel) == (POut::Parsed {
                        v: nodes_view(ns@),
                        end: final(self).pos as int,
                    })
                    &&& old(self).pos <= final(self).pos
                    &&& docs_free_seq(ns@)
                    &&& final(self).sv() == old(self).sv() + sheets_of_seq(nodes_view(ns@))
                },
                Err(e) => sp_nodes(old(self).input@, old(self).pos as int, fuel) == (POut::Failed::<
                    Seq<NodeV>,
                > { kind: e.kind, pos: e.pos as int }),
            },
        decreases self.input@.len() - self.pos, 2int,
    {
        let ghost s = self.input@;
        self.consume_whitespace();
        let ghost p = self.pos as int;
        let mut stop = false;
        if self.eof() {
            stop = true;
        } else if self.next_char() == '<' && self.pos + 1 < self.len {
            let c2 = self.input.as_str().get_char(self.pos + 1);
            if c2 == '/' {
                stop = true;
            }
        }
        if stop {
            let out: Vec<Node> = Vec::new();
            proof {
                assert(nodes_end(s, p));
                assert(docs_free_seq(out@));
                assert(nodes_view(out@) =~= Seq::<NodeV>::empty());
                assert(sheets_of_seq(nodes_view(out@)) =~= Seq::<SheetV>::empty());
                assert(self.sv() =~= old(self).sv() + sheets_of_seq(nodes_view(out@)));
            }
            return Ok(out);
        }
        assert(!nodes_end(s, p));
        let n = match self.parse_node(Ghost(fuel)) {
            Ok(n) => n,
            Err(e) => {
                return Err(e);
            },
        };
        let mut rest = match self.parse_nodes(Ghost((fuel - 1) as nat)) {
            Ok(k) => k,
            Err(e) => {
                return Err(e);
            },
        };
        let ghost restv = nodes_view(rest@);
        let ghost rest_seq = rest@;
        let mut out: Vec<Node> = Vec::new();
        out.push(n);
        out.append(&mut rest);
        proof {
            assert(nodes_view(out@) =~~= seq![out@[0]@] + restv);
            lemma_sheets_of_cons(out@[0]@, restv);
            assert(self.sv() =~= old(self).sv() + sheets_of_seq(nodes_view(out@)));
            assert(doc_free(out@[0]));
            assert(out@.subrange(1, out@.len() as int) =~= rest_seq);
            assert(docs_free_seq(out@));
        }
        Ok(out)
    }
}

/// Parses a markup string into a single root node, forwarding inline
/// style text to `context`. When the grammar yields exactly one
/// top-level node it is returned directly; otherwise the top-level nodes
/// are wrapped in a synthetic `html` element with no attributes. On
/// success the context's style sheets grow by exactly the sheets of the
/// returned tree; on failure the context is unchanged and the error
/// carries the grammar's failure kind and position.
pub fn parse(input: String, context: &mut DocumentData) -> (r: Result<Node, ParseError>)
    ensures
        match r {
            Ok(node) => {
                &&& sp_document(input@) matches POut::Parsed { v, end } && v == node@
                &&& doc_free(node)
                &&& sheets_view(final(context).stylesheets@) == sheets_view(
                    old(context).stylesheets@,
                ) + sheets_of(node@)
                &&& final(context).root == old(context).root
            },
            Err(e) => {
                &&& sp_document(input@) == (POut::Failed::<NodeV> {
                    kind: e.kind,
                    pos: e.pos as int,
                })
                &&& *final(context) == *old(context)
            },
        },
{
    let ghost s = input@;
    let n = input.as_str().unicode_len();
    let mut parser = Parser { pos: 0, len: n, input, sheets: Vec::new() };
    proof {
        assert(parser.sv() =~= Seq::<SheetV>::empty());
    }
    let nodes = match parser.parse_nodes(Ghost((n + 1) as nat)) {
        Ok(k) => k,
        Err(e) => {
            return Err(e);
        },
    };
    let ghost nsv = nodes_view(nodes@);
    let node = if nodes.len() == 1 {
        let mut nodes2 = nodes;
        let first = nodes2.swap_remove(0);
        proof {
            assert(first@ == nsv[0]);
            lemma_sheets_of_cons(first@, Seq::<NodeV>::empty());
            assert(seq![first@] + Seq::<NodeV>::empty() =~= nsv);
            assert(sheets_of_seq(Seq::<NodeV>::empty()) =~= Seq::<SheetV>::empty());
            assert(sheets_of_seq(nsv) =~= sheets_of(first@));
        }
        first
    } else {
        let wrapper = element(String::from_str("html"), AttrMap::new(), nodes);
        proof {
            assert(wrapper@->Element_tag == html_tag());
            reveal_strlit("html");
            reveal_strlit("style");
            assert(html_tag().len() == 4 && style_tag().len() == 5);
            assert(!(html_tag() == style_tag()));
            assert(sheets_of(wrapper@) =~= sheets_of_seq(nsv));
        }
        wrapper
    };
    let mut collected = parser.sheets;
    context.stylesheets.append(&mut collected);
    proof {
        assert(sheets_view(context.stylesheets@) =~= sheets_view(old(context).stylesheets@)
            + sheets_of(node@));
    }
    Ok(node)
}

} // verus!
