//! The document model: the node tree, the attribute map, and the shared
//! parsing context that accumulates the style sheets found while a
//! document is parsed.

use vstd::prelude::*;

use crate::css::RuleV;
use crate::css::SheetV;
use crate::css::StyleSheet;
use crate::scan::POut;
use crate::scan::ParseError;

verus! {

broadcast use vstd::seq::group_seq_axioms, vstd::std_specs::vec::group_vec_axioms;

/// An attribute's value: explicit text, or implicit for a valueless
/// attribute such as `disabled`. An attribute written with an empty
/// value is stored as implicit, and one written with a non-empty value
/// keeps its text; this is the corrected mapping, chosen over the
/// reversed one, and the pretty-printer renders attributes whenever the
/// map is non-empty.
#[derive(Clone, Debug, PartialEq)]
pub enum AttrValue {
    Text(String),
    Implicit,
}

/// Mathematical view of an attribute value.
#[verifier::ext_equal]
pub enum AttrV {
    Text(Seq<char>),
    Implicit,
}

impl View for AttrValue {
    type V = AttrV;

    open spec fn view(&self) -> AttrV {
        match self {
            AttrValue::Text(s) => AttrV::Text(s@),
            AttrValue::Implicit => AttrV::Implicit,
        }
    }
}

/// A mapping from attribute name to value. Names are unique; inserting
/// an existing name overwrites its value in place. The pairs keep
/// insertion order, which is not semantically relevant but makes the
/// rendering deterministic.
#[derive(Clone, Debug, PartialEq)]
pub struct AttrMap(pub Vec<(String, AttrValue)>);

impl View for AttrMap {
    type V = Seq<(Seq<char>, AttrV)>;

    open spec fn view(&self) -> Seq<(Seq<char>, AttrV)> {
        Seq::new(self.0@.len(), |i: int| (self.0@[i].0@, self.0@[i].1@))
    }
}

/// The index of the first pair with key `k`, or -1 when no pair has it.
pub open spec fn key_idx(m: Seq<(Seq<char>, AttrV)>, k: Seq<char>) -> int
    decreases m.len(),
{
    if m.len() == 0 {
        -1
    } else if m[0].0 == k {
        0
    } else {
        let r = key_idx(m.drop_first(), k);
        if r < 0 {
            -1
        } else {
            r + 1
        }
    }
}

/// What `key_idx` returns: either -1 and no pair has key `k`, or the
/// first index whose pair has key `k`.
pub proof fn lemma_key_idx(m: Seq<(Seq<char>, AttrV)>, k: Seq<char>)
    ensures
        key_idx(m, k) == -1 ==> forall|i: int| 0 <= i < m.len() ==> m[i].0 != k,
        key_idx(m, k) != -1 ==> {
            &&& 0 <= key_idx(m, k) < m.len()
            &&& m[key_idx(m, k)].0 == k
            &&& forall|i: int| 0 <= i < key_idx(m, k) ==> m[i].0 != k
        },
    decreases m.len(),
{
    if m.len() > 0 && m[0].0 != k {
        lemma_key_idx(m.drop_first(), k);
        assert forall|i: int| 1 <= i < m.len() implies m.drop_first()[i - 1] == m[i] by {}
    }
}

/// The map after storing `v` under `k`: the first pair with key `k` is
/// replaced, or the pair is appended when the key is new.
pub open spec fn upsert(m: Seq<(Seq<char>, AttrV)>, k: Seq<char>, v: AttrV) -> Seq<
    (Seq<char>, AttrV),
> {
    let i = key_idx(m, k);
    if i < 0 {
        m.push((k, v))
    } else {
        m.update(i, (k, v))
    }
}

/// No two pairs of the map share a name: the invariant of `AttrMap`.
pub open spec fn keys_unique(m: Seq<(Seq<char>, AttrV)>) -> bool {
    forall|i: int, j: int| 0 <= i < j < m.len() ==> m[i].0 != m[j].0
}

/// Law: storing a value under a name keeps the names unique, whether the
/// name was present (its value is overwritten in place) or new (the pair
/// is appended).
pub proof fn lemma_upsert_keys_unique(m: Seq<(Seq<char>, AttrV)>, k: Seq<char>, v: AttrV)
    requires
        keys_unique(m),
    ensures
        keys_unique(upsert(m, k, v)),
{
    lemma_key_idx(m, k);
    let d = key_idx(m, k);
    if d < 0 {
        let m2 = m.push((k, v));
        assert forall|i: int, j: int| 0 <= i < j < m2.len() implies m2[i].0 != m2[j].0 by {
            if j == m.len() {
                assert(m2[i] == m[i]);
                assert(m[i].0 != k);
            } else {
                assert(m2[i] == m[i] && m2[j] == m[j]);
            }
        }
    } else {
        let m2 = m.update(d, (k, v));
        assert(m[d].0 == k);
        assert forall|i: int, j: int| 0 <= i < j < m2.len() implies m2[i].0 != m2[j].0 by {
            if i == d {
                assert(m2[i].0 == m[d].0 && m2[j] == m[j]);
            } else if j == d {
                assert(m2[j].0 == m[d].0 && m2[i] == m[i]);
            } else {
                assert(m2[i] == m[i] && m2[j] == m[j]);
            }
        }
    }
}

impl AttrMap {
    /// A map with no attributes.
    pub fn new() -> (r: AttrMap)
        ensures
            r@ =~= Seq::<(Seq<char>, AttrV)>::empty(),
    {
        AttrMap(Vec::new())
    }

    /// Stores `value` under `name`, overwriting the value of an existing
    /// name.
    pub fn insert(&mut self, name: String, value: AttrValue)
        ensures
            final(self)@ =~= upsert(old(self)@, name@, value@),
    {
        let n: usize = self.0.len();
        let mut i: usize = 0;
        while i < n
            invariant
                n == self.0.len(),
                0 <= i <= n,
                *self == *old(self),
                forall|j: int| 0 <= j < i ==> old(self)@[j].0 != name@,
            decreases n - i,
        {
            if self.0[i].0 == name {
                proof {
                    let m = old(self)@;
                    let k = name@;
                    lemma_key_idx(m, k);
                    assert(m[i as int].0 == k);
                    let d = key_idx(m, k);
                    if d == -1 {
                        assert(m[i as int].0 != k);
                    } else if d < i as int {
                        assert(m[d].0 == k);
                        assert(m[d].0 != k);
                    } else if d > i as int {
                        assert(m[i as int].0 != k);
                    }
                    assert(d == i as int);
                }
                self.0.set(i, (name, value));
                return ;
            }
            i = i + 1;
        }
        proof {
            lemma_key_idx(old(self)@, name@);
            if key_idx(old(self)@, name@) != -1 {
                assert(old(self)@[key_idx(old(self)@, name@)].0 == name@);
            }
        }
        self.0.push((name, value));
    }
}

/// The payload of an element node: its tag name, attributes, and child
/// nodes in document order.
#[derive(Debug, PartialEq)]
pub struct ElementData {
    pub tag_name: String,
    pub attributes: AttrMap,
    pub child_nodes: Vec<Node>,
}

/// The kinds of node in the tree.
#[derive(Debug, PartialEq)]
pub enum NodeType {
    ElementNode(ElementData),
    TextNode(String),
    CommentNode(String),
    DocumentNode(DocumentData),
}

/// One node of the document tree, owning its children outright.
#[derive(Debug, PartialEq)]
pub struct Node {
    pub node_type: NodeType,
}

/// The parsing context and root of a parsed document: the root node once
/// a document has been loaded, and the style sheets collected from
/// inline style blocks, in the order they were forwarded.
#[derive(Debug, PartialEq)]
pub struct DocumentData {
    pub root: Box<Option<Node>>,
    pub stylesheets: Vec<StyleSheet>,
}

impl Clone for ElementData {
    /// A deep copy. The derive is refused on this recursive type, so the
    /// copy is written out.
    fn clone(&self) -> (r: ElementData)
        decreases self,
    {
        let mut kids: Vec<Node> = Vec::new();
        let mut i: usize = 0;
        while i < self.child_nodes.len()
            invariant
                0 <= i <= self.child_nodes.len(),
            decreases self.child_nodes.len() - i,
        {
            kids.push(self.child_nodes[i].clone());
            i = i + 1;
        }
        ElementData {
            tag_name: self.tag_name.clone(),
            attributes: self.attributes.clone(),
            child_nodes: kids,
        }
    }
}

impl Clone for NodeType {
    /// A deep copy. The derive is refused on this recursive type, so the
    /// copy is written out.
    fn clone(&self) -> (r: NodeType)
        decreases self,
    {
        match self {
            NodeType::ElementNode(e) => NodeType::ElementNode(e.clone()),
            NodeType::TextNode(t) => NodeType::TextNode(t.clone()),
            NodeType::CommentNode(t) => NodeType::CommentNode(t.clone()),
            NodeType::DocumentNode(d) => NodeType::DocumentNode(d.clone()),
        }
    }
}

impl Clone for Node {
    /// A deep copy. The derive is refused on this recursive type, so the
    /// copy is written out.
    fn clone(&self) -> (r: Node)
        decreases self,
    {
        Node { node_type: self.node_type.clone() }
    }
}

impl Clone for DocumentData {
    /// A deep copy. The derive is refused on this recursive type, so the
    /// copy is written out.
    fn clone(&self) -> (r: DocumentData)
        decreases self,
    {
        let root: Box<Option<Node>> = match &*self.root {
            Some(n) => Box::new(Some(n.clone())),
            None => Box::new(None),
        };
        let mut sheets: Vec<StyleSheet> = Vec::new();
        let mut i: usize = 0;
        while i < self.stylesheets.len()
            invariant
                0 <= i <= self.stylesheets.len(),
            decreases self.stylesheets.len() - i,
        {
            sheets.push(self.stylesheets[i].clone());
            i = i + 1;
        }
        DocumentData { root, stylesheets: sheets }
    }
}

/// Mathematical view of a tree node. A document node has no view here;
/// the tree produced by parsing holds only elements, text, and comments,
/// and `DocumentData` has its own view.
#[verifier::ext_equal]
pub enum NodeV {
    Element { tag: Seq<char>, attrs: Seq<(Seq<char>, AttrV)>, children: Seq<NodeV> },
    Text(Seq<char>),
    Comment(Seq<char>),
}

/// Mathematical view of the document context.
#[verifier::ext_equal]
pub struct DocV {
    pub root: Option<NodeV>,
    pub sheets: Seq<SheetV>,
}

/// The views of a sequence of nodes, in order.
pub open spec fn nodes_view(v: Seq<Node>) -> Seq<NodeV>
    decreases v,
{
    Seq::new(
        v.len(),
        |i: int|
            if 0 <= i < v.len() {
                v[i]@
            } else {
                NodeV::Text(Seq::empty())
            },
    )
}

impl View for Node {
    type V = NodeV;

    /// The view of a tree node. A document node, which never occurs
    /// inside a parsed tree, is viewed as empty text.
    open spec fn view(&self) -> NodeV
        decreases self,
    {
        match &self.node_type {
            NodeType::ElementNode(e) => NodeV::Element {
                tag: e.tag_name@,
                attrs: e.attributes@,
                children: nodes_view(e.child_nodes@),
            },
            NodeType::TextNode(s) => NodeV::Text(s@),
            NodeType::CommentNode(s) => NodeV::Comment(s@),
            NodeType::DocumentNode(_) => NodeV::Text(Seq::empty()),
        }
    }
}

impl View for DocumentData {
    type V = DocV;

    open spec fn view(&self) -> DocV {
        DocV {
            root: match &*self.root {
                Some(n) => Some(n@),
                None => None,
            },
            sheets: crate::css::sheets_view(self.stylesheets@),
        }
    }
}

impl DocumentData {
    /// A fresh context: no root, no style sheets.
    pub fn new() -> (r: Self)
        ensures
            r@ == (DocV { root: None, sheets: Seq::<SheetV>::empty() }),
    {
        let r = DocumentData { root: Box::new(None), stylesheets: Vec::new() };
        proof {
            assert(r@ =~~= (DocV { root: None, sheets: Seq::<SheetV>::empty() }));
        }
        r
    }

    /// Parses `styling` as a style sheet and appends the result to the
    /// collection; on malformed style text the context is unchanged and
    /// the grammar's failure is returned.
    pub fn load_css(&mut self, styling: String) -> (r: Result<(), ParseError>)
        ensures
            match r {
                Ok(_) => {
                    &&& crate::css::sp_stylesheet(styling@) matches POut::Parsed { v, end }
                        && final(self)@.sheets == old(self)@.sheets.push(SheetV { rules: v })
                    &&& final(self)@.root == old(self)@.root
                },
                Err(e) => {
                    &&& crate::css::sp_stylesheet(styling@) == (POut::Failed::<Seq<RuleV>> {
                        kind: e.kind,
                        pos: e.pos as int,
                    })
                    &&& *final(self) == *old(self)
                },
            },
    {
        match crate::css::parse(styling.as_str()) {
            Ok(sheet) => {
                self.stylesheets.push(sheet);
                proof {
                    assert(self@.sheets =~= old(self)@.sheets.push(
                        SheetV { rules: sheet@.rules },
                    ));
                    assert(sheet@ == (SheetV { rules: sheet@.rules }));
                }
                Ok(())
            },
            Err(e) => Err(e),
        }
    }

    /// Parses `document` as markup, stores the resulting root node, and
    /// appends the sheets of its inline style blocks; on malformed input
    /// the context is unchanged and the grammar's failure is returned.
    pub fn load_document(&mut self, document: String) -> (r: Result<(), ParseError>)
        ensures
            match r {
                Ok(_) => crate::html::sp_document(document@) matches POut::Parsed { v, end }
                    && final(self)@.root == Some(v) && final(self)@.sheets == old(self)@.sheets
                    + crate::html::sheets_of(v) && ((*final(self).root) matches Some(rn)
                    && doc_free(rn)),
                Err(e) => {
                    &&& crate::html::sp_document(document@) == (POut::Failed::<NodeV> {
                        kind: e.kind,
                        pos: e.pos as int,
                    })
                    &&& *final(self) == *old(self)
                },
            },
    {
        match crate::html::parse(document, self) {
            Ok(node) => {
                self.root = Box::new(Some(node));
                Ok(())
            },
            Err(e) => Err(e),
        }
    }
}

/// Parses a whole document string into a document node that holds the
/// root tree and the style sheets collected from its inline style
/// blocks; on malformed input the grammar's failure is returned instead.
pub fn parse(document: String) -> (r: Result<Node, ParseError>)
    ensures
        match r {
            Ok(n) => (match n.node_type {
                NodeType::DocumentNode(d) => crate::html::sp_document(document@)
                    matches POut::Parsed { v, end } && d@.root == Some(v) && d@.sheets
                    == crate::html::sheets_of(v) && ((*d.root) matches Some(rn) && doc_free(rn)),
                _ => false,
            }),
            Err(e) => crate::html::sp_document(document@) == (POut::Failed::<NodeV> {
                kind: e.kind,
                pos: e.pos as int,
            }),
        },
{
    let mut context = DocumentData::new();
    match context.load_document(document) {
        Ok(_) => Ok(Node { node_type: NodeType::DocumentNode(context) }),
        Err(e) => Err(e),
    }
}

/// A text node with the given content.
pub fn text(data: String) -> (r: Node)
    ensures
        r@ == NodeV::Text(data@),
        r.node_type == NodeType::TextNode(data),
{
    Node { node_type: NodeType::TextNode(data) }
}

/// An element node with the given tag name, attributes, and children.
pub fn element(name: String, attrs: AttrMap, children: Vec<Node>) -> (r: Node)
    ensures
        r@ == (NodeV::Element { tag: name@, attrs: attrs@, children: nodes_view(children@) }),
        r.node_type == NodeType::ElementNode(
            ElementData { tag_name: name, attributes: attrs, child_nodes: children },
        ),
{
    Node {
        node_type: NodeType::ElementNode(
            ElementData { tag_name: name, attributes: attrs, child_nodes: children },
        ),
    }
}

/// A comment node with the given text.
pub fn comment(text_content: String) -> (r: Node)
    ensures
        r@ == NodeV::Comment(text_content@),
        r.node_type == NodeType::CommentNode(text_content),
{
    Node { node_type: NodeType::CommentNode(text_content) }
}

/// Whether no document node occurs anywhere in the tree. Parsed trees
/// are document-free; the pretty-printer's contract speaks of such
/// trees.
pub open spec fn doc_free(n: Node) -> bool
    decreases n,
{
    match n.node_type {
        NodeType::ElementNode(e) => docs_free_seq(e.child_nodes@),
        NodeType::TextNode(_) => true,
        NodeType::CommentNode(_) => true,
        NodeType::DocumentNode(_) => false,
    }
}

/// Whether no document node occurs in any of the trees.
pub open spec fn docs_free_seq(v: Seq<Node>) -> bool
    decreases v,
{
    v.len() == 0 || (doc_free(v[0]) && docs_free_seq(v.subrange(1, v.len() as int)))
}

/// The indentation for nesting depth `n`: two spaces per level.
pub open spec fn sp_indent(n: nat) -> Seq<char>
    decreases n,
{
    if n == 0 {
        Seq::empty()
    } else {
        sp_indent((n - 1) as nat) + "  "@
    }
}

/// The text of one attribute: `name="value"`, or the bare name for an
/// implicit attribute.
pub open spec fn render_attr(p: (Seq<char>, AttrV)) -> Seq<char> {
    match p.1 {
        AttrV::Text(v) => p.0 + "=\""@ + v + "\""@,
        AttrV::Implicit => p.0,
    }
}

/// The texts of the attributes, joined by single spaces.
pub open spec fn render_attrs(attrs: Seq<(Seq<char>, AttrV)>) -> Seq<char>
    decreases attrs.len(),
{
    if attrs.len() == 0 {
        Seq::empty()
    } else if attrs.len() == 1 {
        render_attr(attrs[0])
    } else {
        render_attr(attrs[0]) + " "@ + render_attrs(attrs.drop_first())
    }
}

/// The pretty-printed text of a tree at the given indentation: an
/// element with no children collapses its tags onto one line; one with
/// children indents each child one level deeper; text renders as its raw
/// content; a comment renders between comment markers. Every line ends
/// with a newline.
pub open spec fn render_node(n: NodeV, pad: Seq<char>) -> Seq<char>
    decreases n,
{
    match n {
        NodeV::Element { tag, attrs, children } => {
            let head = pad + "<"@ + tag + (if attrs.len() > 0 {
                " "@ + render_attrs(attrs)
            } else {
                Seq::empty()
            });
            if children.len() == 0 {
                head + "></"@ + tag + ">\n"@
            } else {
                head + ">\n"@ + render_children(children, pad + "  "@) + pad + "</"@ + tag + ">\n"@
            }
        },
        NodeV::Text(t) => pad + t + "\n"@,
        NodeV::Comment(t) => pad + "<!-- "@ + t + " -->\n"@,
    }
}

/// The concatenated pretty-printed texts of the trees, in order.
pub open spec fn render_children(ns: Seq<NodeV>, pad: Seq<char>) -> Seq<char>
    decreases ns,
{
    if ns.len() == 0 {
        Seq::empty()
    } else {
        render_node(ns[0], pad) + render_children(ns.subrange(1, ns.len() as int), pad)
    }
}

/// The indentation string for nesting depth `indent`.
fn indent_string(indent: usize) -> (r: String)
    ensures
        r@ == sp_indent(indent as nat),
{
    let mut out = String::new();
    let mut i: usize = 0;
    while i < indent
        invariant
            0 <= i <= indent,
            out@ == sp_indent(i as nat),
        decreases indent - i,
    {
        out.append("  ");
        i = i + 1;
    }
    out
}

/// The attribute texts from index `i` on, joined by single spaces.
fn attrs_text_from(m: &AttrMap, i: usize) -> (out: String)
    requires
        i <= m.0@.len(),
    ensures
        out@ == render_attrs(m@.subrange(i as int, m@.len() as int)),
    decreases m.0@.len() - i,
{
    let k: usize = m.0.len();
    let mut out = String::new();
    if i >= k {
        proof {
            assert(m@.subrange(i as int, k as int) =~= Seq::<(Seq<char>, AttrV)>::empty());
        }
        return out;
    }
    let pair = &m.0[i];
    out.append(pair.0.as_str());
    match &pair.1 {
        AttrValue::Text(v) => {
            out.append("=\"");
            out.append(v.as_str());
            out.append("\"");
        },
        AttrValue::Implicit => {},
    }
    proof {
        assert(m@.subrange(i as int, k as int)[0] == (m.0@[i as int].0@, m.0@[i as int].1@));
        assert(out@ =~= render_attr(m@.subrange(i as int, k as int)[0]));
        assert(m@.subrange(i as int, k as int).drop_first() =~= m@.subrange(i as int + 1, k as int));
    }
    if i + 1 < k {
        out.append(" ");
        let rest = attrs_text_from(m, i + 1);
        out.append(rest.as_str());
        proof {
            assert(out@ =~= render_attrs(m@.subrange(i as int, k as int)));
        }
    } else {
        proof {
            assert(m@.subrange(i as int, k as int).len() == 1);
        }
    }
    out
}

/// The pretty-printed text of one tree with the given pad.
fn node_text(n: &Node, pad: &str) -> (out: String)
    ensures
        doc_free(*n) ==> out@ == render_node(n@, pad@),
        (n.node_type is DocumentNode) ==> out@ == Seq::<char>::empty(),
    decreases *n, 0int,
{
    let mut out = String::new();
    match &n.node_type {
        NodeType::ElementNode(e) => {
            out.append(pad);
            out.append("<");
            out.append(e.tag_name.as_str());
            if e.attributes.0.len() > 0 {
                out.append(" ");
                let a = attrs_text_from(&e.attributes, 0);
                proof {
                    assert(e.attributes@.subrange(0, e.attributes@.len() as int) =~= e.attributes@);
                }
                out.append(a.as_str());
            }
            if e.child_nodes.len() == 0 {
                out.append("></");
                out.append(e.tag_name.as_str());
                out.append(">\n");
                proof {
                    if doc_free(*n) {
                        assert(out@ =~= render_node(n@, pad@));
                    }
                }
                return out;
            }
            out.append(">\n");
            let mut pad2 = pad.to_owned();
            pad2.append("  ");
            proof {
                assert(pad2@ == pad@ + "  "@);
            }
            let kids = children_text(&e.child_nodes, 0, pad2.as_str());
            out.append(kids.as_str());
            out.append(pad);
            out.append("</");
            out.append(e.tag_name.as_str());
            out.append(">\n");
            proof {
                if doc_free(*n) {
                    assert(e.child_nodes@.subrange(0, e.child_nodes@.len() as int)
                        =~= e.child_nodes@);
                    assert(nodes_view(e.child_nodes@).subrange(0, e.child_nodes@.len() as int)
                        =~= nodes_view(e.child_nodes@));
                    assert(kids@ == render_children(nodes_view(e.child_nodes@), pad2@));
                    assert(out@ =~= render_node(n@, pad@));
                }
            }
        },
        NodeType::TextNode(t) => {
            out.append(pad);
            out.append(t.as_str());
            out.append("\n");
            proof {
                assert(out@ =~= render_node(n@, pad@));
            }
        },
        NodeType::CommentNode(t) => {
            out.append(pad);
            out.append("<!-- ");
            out.append(t.as_str());
            out.append(" -->\n");
            proof {
                assert(out@ =~= render_node(n@, pad@));
            }
        },
        NodeType::DocumentNode(_) => {},
    }
    out
}

/// The concatenated pretty-printed texts of the children from index `i`
/// on.
fn children_text(v: &Vec<Node>, i: usize, pad: &str) -> (out: String)
    requires
        i <= v@.len(),
    ensures
        docs_free_seq(v@.subrange(i as int, v@.len() as int)) ==> out@ == render_children(
            nodes_view(v@).subrange(i as int, v@.len() as int),
            pad@,
        ),
    decreases v@, v@.len() - i,
{
    let k: usize = v.len();
    if i >= k {
        proof {
            assert(nodes_view(v@).subrange(i as int, k as int) =~= Seq::<NodeV>::empty());
        }
        return String::new();
    }
    let mut out = node_text(&v[i], pad);
    let rest = children_text(v, i + 1, pad);
    out.append(rest.as_str());
    proof {
        let ns = nodes_view(v@);
        assert(ns.subrange(i as int, k as int)[0] == v@[i as int]@);
        assert(ns.subrange(i as int, k as int).subrange(1, (k - i) as int) =~= ns.subrange(
            i as int + 1,
            k as int,
        ));
        let dv = v@.subrange(i as int, k as int);
        assert(dv[0] == v@[i as int]);
        assert(dv.subrange(1, (k - i) as int) =~= v@.subrange(i as int + 1, k as int));
        if docs_free_seq(dv) {
            assert(doc_free(v@[i as int]));
            assert(out@ =~= render_children(ns.subrange(i as int, k as int), pad@));
        }
    }
    out
}

impl Node {
    /// Renders this node and its descendants as indented tagged text,
    /// two spaces per nesting level, starting at the given level. A
    /// document node renders as nothing.
    pub fn pretty_print(&self, indent: usize) -> (out: String)
        ensures
            doc_free(*self) ==> out@ == render_node(self@, sp_indent(indent as nat)),
            (self.node_type is DocumentNode) ==> out@ == Seq::<char>::empty(),
    {
        let pad = indent_string(indent);
        node_text(self, pad.as_str())
    }

    /// The pretty-printed text of the whole tree, unindented.
    pub fn to_text(&self) -> (out: String)
        ensures
            doc_free(*self) ==> out@ == render_node(self@, Seq::empty()),
            (self.node_type is DocumentNode) ==> out@ == Seq::<char>::empty(),
    {
        let out = self.pretty_print(0);
        out
    }
}

} // verus!
