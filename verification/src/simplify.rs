//! The simplified description tree and its builder.
//!
//! Parsed wikitext nodes are converted into a small tree of display nodes.
//! Inline markup — bold, italic and four tag-based containers — is
//! parenthesised with a push-down stack over a sentinel fragment. Unbalanced
//! markup is never rejected, as rendered wikitext is lenient: a close with
//! nothing open is ignored, a bold-italic toggle with no bold-italic pair on
//! top opens two fresh layers, and every container still open at the end of
//! input is closed implicitly.

use vstd::prelude::*;
use vstd::utf8::{valid_utf8, decode_utf8};
use crate::strutil::{dec_str, usize_to_string, bytes_slice, bytes_to_string, str_eq};
use crate::wikitext::{
    WtNode, WtParameter, InnerTextConfig, spec_nodes_inner_text, nodes_inner_text,
};

verus! {

/// A node of the simplified description tree.
#[derive(Debug, PartialEq)]
pub enum SimplifiedNode {
    Fragment { children: Vec<SimplifiedNode> },
    Template { name: String, children: Vec<TemplateParameter> },
    Link { text: String, title: String },
    ExtLink { text: String, link: String },
    Bold { children: Vec<SimplifiedNode> },
    Italic { children: Vec<SimplifiedNode> },
    Blockquote { children: Vec<SimplifiedNode> },
    Superscript { children: Vec<SimplifiedNode> },
    Subscript { children: Vec<SimplifiedNode> },
    Small { children: Vec<SimplifiedNode> },
    Preformatted { children: Vec<SimplifiedNode> },
    Text { text: String },
    ParagraphBreak,
    Newline,
}

/// A template parameter of the simplified tree: a name and the raw text of
/// the value.
#[derive(Debug, PartialEq)]
pub struct TemplateParameter {
    pub name: String,
    pub value: String,
}

/// The mathematical form of a simplified node, over character sequences.
pub enum SimpleView {
    Fragment { children: Seq<SimpleView> },
    Template { name: Seq<char>, children: Seq<ParamView> },
    Link { text: Seq<char>, title: Seq<char> },
    ExtLink { text: Seq<char>, link: Seq<char> },
    Bold { children: Seq<SimpleView> },
    Italic { children: Seq<SimpleView> },
    Blockquote { children: Seq<SimpleView> },
    Superscript { children: Seq<SimpleView> },
    Subscript { children: Seq<SimpleView> },
    Small { children: Seq<SimpleView> },
    Preformatted { children: Seq<SimpleView> },
    Text { text: Seq<char> },
    ParagraphBreak,
    Newline,
}

pub struct ParamView {
    pub name: Seq<char>,
    pub value: Seq<char>,
}

/// Why a description cannot be simplified. Every case is a data-shape fault
/// of the page and ends the run. Unbalanced inline markup is no fault: wiki
/// text is lenient, so stray closes are ignored and open layers are closed
/// implicitly at end of input.
#[derive(Debug, Clone, Copy, PartialEq, Eq, Structural)]
pub enum SimplifyError {
    /// A node kind with no simplification rule.
    UnknownNode { start: usize, end: usize },
    /// A node span that does not fit the text, or bytes that are not valid
    /// UTF-8 at span borders.
    BadSlice,
}

pub open spec fn node_view(n: SimplifiedNode) -> SimpleView
    decreases n, 1int,
{
    match n {
        SimplifiedNode::Fragment { children } => SimpleView::Fragment {
            children: nodes_view(children@),
        },
        SimplifiedNode::Template { name, children } => SimpleView::Template {
            name: name@,
            children: params_view(children@),
        },
        SimplifiedNode::Link { text, title } => SimpleView::Link { text: text@, title: title@ },
        SimplifiedNode::ExtLink { text, link } => SimpleView::ExtLink {
            text: text@,
            link: link@,
        },
        SimplifiedNode::Bold { children } => SimpleView::Bold { children: nodes_view(children@) },
        SimplifiedNode::Italic { children } => SimpleView::Italic {
            children: nodes_view(children@),
        },
        SimplifiedNode::Blockquote { children } => SimpleView::Blockquote {
            children: nodes_view(children@),
        },
        SimplifiedNode::Superscript { children } => SimpleView::Superscript {
            children: nodes_view(children@),
        },
        SimplifiedNode::Subscript { children } => SimpleView::Subscript {
            children: nodes_view(children@),
        },
        SimplifiedNode::Small { children } => SimpleView::Small {
            children: nodes_view(children@),
        },
        SimplifiedNode::Preformatted { children } => SimpleView::Preformatted {
            children: nodes_view(children@),
        },
        SimplifiedNode::Text { text } => SimpleView::Text { text: text@ },
        SimplifiedNode::ParagraphBreak => SimpleView::ParagraphBreak,
        SimplifiedNode::Newline => SimpleView::Newline,
    }
}

pub open spec fn nodes_view(ns: Seq<SimplifiedNode>) -> Seq<SimpleView>
    decreases ns, 0int,
{
    if ns.len() == 0 {
        Seq::empty()
    } else {
        seq![node_view(ns[0])] + nodes_view(ns.skip(1))
    }
}

pub open spec fn params_view(ps: Seq<TemplateParameter>) -> Seq<ParamView>
    decreases ps.len(),
{
    if ps.len() == 0 {
        Seq::empty()
    } else {
        seq![ParamView { name: ps[0].name@, value: ps[0].value@ }] + params_view(ps.skip(1))
    }
}

impl SimpleView {
    /// True of the views that hold children.
    pub open spec fn is_container(self) -> bool {
        match self {
            SimpleView::Fragment { .. } => true,
            SimpleView::Bold { .. } => true,
            SimpleView::Italic { .. } => true,
            SimpleView::Blockquote { .. } => true,
            SimpleView::Superscript { .. } => true,
            SimpleView::Subscript { .. } => true,
            SimpleView::Small { .. } => true,
            SimpleView::Preformatted { .. } => true,
            _ => false,
        }
    }

    pub open spec fn children_of(self) -> Seq<SimpleView> {
        match self {
            SimpleView::Fragment { children } => children,
            SimpleView::Bold { children } => children,
            SimpleView::Italic { children } => children,
            SimpleView::Blockquote { children } => children,
            SimpleView::Superscript { children } => children,
            SimpleView::Subscript { children } => children,
            SimpleView::Small { children } => children,
            SimpleView::Preformatted { children } => children,
            _ => Seq::empty(),
        }
    }

    /// The same container with one more child; anything else unchanged.
    pub open spec fn with_child(self, c: SimpleView) -> SimpleView {
        match self {
            SimpleView::Fragment { children } => SimpleView::Fragment {
                children: children.push(c),
            },
            SimpleView::Bold { children } => SimpleView::Bold { children: children.push(c) },
            SimpleView::Italic { children } => SimpleView::Italic { children: children.push(c) },
            SimpleView::Blockquote { children } => SimpleView::Blockquote {
                children: children.push(c),
            },
            SimpleView::Superscript { children } => SimpleView::Superscript {
                children: children.push(c),
            },
            SimpleView::Subscript { children } => SimpleView::Subscript {
                children: children.push(c),
            },
            SimpleView::Small { children } => SimpleView::Small { children: children.push(c) },
            SimpleView::Preformatted { children } => SimpleView::Preformatted {
                children: children.push(c),
            },
            _ => self,
        }
    }
}

/// Appends a child to the top of the stack.
pub open spec fn spec_push_child(stack: Seq<SimpleView>, c: SimpleView) -> Seq<SimpleView> {
    stack.update(stack.len() - 1, stack.last().with_child(c))
}

/// Pops the top layer and appends it to the layer below. A close with
/// nothing open above the sentinel is ignored: unbalanced input is never
/// rejected.
pub open spec fn spec_close_top(stack: Seq<SimpleView>) -> Seq<SimpleView> {
    if stack.len() >= 2 {
        spec_push_child(stack.drop_last(), stack.last())
    } else {
        stack
    }
}

pub open spec fn tag_container(name: Seq<char>) -> Option<SimpleView> {
    if name == "blockquote"@ {
        Some(SimpleView::Blockquote { children: Seq::empty() })
    } else if name == "sup"@ {
        Some(SimpleView::Superscript { children: Seq::empty() })
    } else if name == "sub"@ {
        Some(SimpleView::Subscript { children: Seq::empty() })
    } else if name == "small"@ {
        Some(SimpleView::Small { children: Seq::empty() })
    } else {
        None
    }
}

/// One step of the stack walk. A bold or italic toggle closes a matching
/// top layer and opens a fresh one otherwise; a bold-italic toggle closes an
/// italic-over-bold pair and otherwise opens both layers.
pub open spec fn spec_step(w: Seq<u8>, stack: Seq<SimpleView>, n: WtNode) -> Result<
    Seq<SimpleView>,
    SimplifyError,
>
    decreases n, 1int,
{
    match n {
        WtNode::Bold { .. } => {
            if stack.last() is Bold {
                Ok(spec_close_top(stack))
            } else {
                Ok(stack.push(SimpleView::Bold { children: Seq::empty() }))
            }
        },
        WtNode::Italic { .. } => {
            if stack.last() is Italic {
                Ok(spec_close_top(stack))
            } else {
                Ok(stack.push(SimpleView::Italic { children: Seq::empty() }))
            }
        },
        WtNode::BoldItalic { .. } => {
            if stack.len() >= 3 && stack.last() is Italic && stack[stack.len() - 2] is Bold {
                Ok(
                    spec_push_child(
                        stack.take(stack.len() - 2),
                        stack[stack.len() - 2].with_child(stack.last()),
                    ),
                )
            } else {
                Ok(
                    stack.push(SimpleView::Bold { children: Seq::empty() }).push(
                        SimpleView::Italic { children: Seq::empty() },
                    ),
                )
            }
        },
        WtNode::StartTag { name, .. } if tag_container(name@) is Some => Ok(
            stack.push(tag_container(name@)->Some_0),
        ),
        WtNode::EndTag { name, .. } if tag_container(name@) is Some => Ok(spec_close_top(stack)),
        _ => match spec_simplify_node(w, n) {
            Ok(Some(c)) => Ok(spec_push_child(stack, c)),
            Ok(None) => Ok(stack),
            Err(e) => Err(e),
        },
    }
}

/// The walk over a node list, from the given stack.
pub open spec fn spec_fold(w: Seq<u8>, stack: Seq<SimpleView>, ns: Seq<WtNode>) -> Result<
    Seq<SimpleView>,
    SimplifyError,
>
    decreases ns, 2int,
{
    if ns.len() == 0 {
        Ok(stack)
    } else {
        match spec_step(w, stack, ns[0]) {
            Ok(stack2) => spec_fold(w, stack2, ns.skip(1)),
            Err(e) => Err(e),
        }
    }
}

/// Implicit close of everything still open, down to the sentinel.
pub open spec fn spec_unwind(stack: Seq<SimpleView>) -> Seq<SimpleView>
    decreases stack.len(),
{
    if stack.len() <= 1 {
        stack
    } else {
        spec_unwind(spec_push_child(stack.drop_last(), stack.last()))
    }
}

pub open spec fn sentinel() -> Seq<SimpleView> {
    seq![SimpleView::Fragment { children: Seq::empty() }]
}

/// What a node list simplifies to: the children gathered by the stack walk
/// over a sentinel fragment, with still-open layers closed implicitly.
pub open spec fn spec_simplify(w: Seq<u8>, ns: Seq<WtNode>) -> Result<
    Seq<SimpleView>,
    SimplifyError,
>
    decreases ns, 3int,
{
    match spec_fold(w, sentinel(), ns) {
        Ok(stack) => Ok(spec_unwind(stack)[0].children_of()),
        Err(e) => Err(e),
    }
}

/// The position of the first space of the string, if any.
pub open spec fn first_space_from(s: Seq<char>, i: int) -> Option<int>
    decreases s.len() - i,
{
    if i < 0 || i >= s.len() {
        None
    } else if s[i] == ' ' {
        Some(i)
    } else {
        first_space_from(s, i + 1)
    }
}

/// What one node simplifies to on its own: a display node, nothing, or a
/// fault for node kinds that have no rule.
pub open spec fn spec_simplify_node(w: Seq<u8>, n: WtNode) -> Result<
    Option<SimpleView>,
    SimplifyError,
>
    decreases n, 0int,
{
    match n {
        WtNode::Template { name, parameters, .. } => {
            match spec_simplify_params(w, parameters@, 1) {
                Ok(children) => Ok(
                    Some(
                        SimpleView::Template {
                            name: spec_nodes_inner_text(name@, false),
                            children,
                        },
                    ),
                ),
                Err(e) => Err(e),
            }
        },
        WtNode::MagicWord { .. } => Ok(None),
        WtNode::Bold { .. } => Ok(None),
        WtNode::BoldItalic { .. } => Ok(None),
        WtNode::Italic { .. } => Ok(None),
        WtNode::Link { target, text, .. } => Ok(
            Some(
                SimpleView::Link {
                    text: spec_nodes_inner_text(text@, false),
                    title: target@,
                },
            ),
        ),
        WtNode::ExternalLink { nodes, .. } => {
            let inner = spec_nodes_inner_text(nodes@, false);
            match first_space_from(inner, 0) {
                Some(i) => Ok(
                    Some(
                        SimpleView::ExtLink {
                            text: inner.take(i),
                            link: inner.skip(i + 1),
                        },
                    ),
                ),
                None => Ok(Some(SimpleView::ExtLink { text: "link"@, link: inner })),
            }
        },
        WtNode::Text { value, .. } => Ok(Some(SimpleView::Text { text: value@ })),
        WtNode::CharacterEntity { character, .. } => Ok(
            Some(SimpleView::Text { text: seq![character] }),
        ),
        WtNode::ParagraphBreak { .. } => Ok(Some(SimpleView::ParagraphBreak)),
        WtNode::Category { .. } => Ok(None),
        WtNode::Comment { .. } => Ok(None),
        WtNode::Image { .. } => Ok(None),
        WtNode::DefinitionList { .. } => Ok(None),
        WtNode::OrderedList { .. } => Ok(None),
        WtNode::UnorderedList { .. } => Ok(None),
        WtNode::Tag { name, .. } if name@ == "nowiki"@ || name@ == "references"@ || name@
            == "gallery"@ => Ok(None),
        WtNode::StartTag { name, .. } if name@ == "br"@ => Ok(Some(SimpleView::Newline)),
        WtNode::Preformatted { nodes, .. } => match spec_simplify(w, nodes@) {
            Ok(children) => Ok(Some(SimpleView::Preformatted { children })),
            Err(e) => Err(e),
        },
        _ => Err(
            SimplifyError::UnknownNode {
                start: n.spec_start() as usize,
                end: n.spec_end() as usize,
            },
        ),
    }
}

/// What the template parameters simplify to: names as written or synthetic
/// positions for unnamed ones, values as the raw text slice between the
/// value's first and last node.
pub open spec fn spec_simplify_params(w: Seq<u8>, ps: Seq<WtParameter>, idx: int) -> Result<
    Seq<ParamView>,
    SimplifyError,
>
    decreases ps, 4int,
{
    if ps.len() == 0 {
        Ok(Seq::empty())
    } else {
        let p = ps[0];
        let name = match p.name {
            Some(nv) => spec_nodes_inner_text(nv@, false),
            None => dec_str(idx),
        };
        let next_idx = if p.name is None {
            idx + 1
        } else {
            idx
        };
        let vs = if p.value@.len() > 0 {
            p.value@[0].spec_start()
        } else {
            0
        };
        let ve = if p.value@.len() > 0 {
            p.value@.last().spec_end()
        } else {
            0
        };
        if !(0 <= vs <= ve <= w.len()) {
            Err(SimplifyError::BadSlice)
        } else if !valid_utf8(w.subrange(vs, ve)) {
            Err(SimplifyError::BadSlice)
        } else {
            match spec_simplify_params(w, ps.skip(1), next_idx) {
                Ok(rest) => Ok(
                    seq![
                        ParamView { name, value: decode_utf8(w.subrange(vs, ve)) },
                    ] + rest,
                ),
                Err(e) => Err(e),
            }
        }
    }
}

} // verus!

verus! {

pub proof fn lemma_nodes_view_props(ns: Seq<SimplifiedNode>)
    ensures
        nodes_view(ns).len() == ns.len(),
        forall|i: int| 0 <= i < ns.len() ==> nodes_view(ns)[i] == node_view(ns[i]),
    decreases ns.len(),
{
    if ns.len() > 0 {
        lemma_nodes_view_props(ns.skip(1));
        assert(forall|i: int|
            1 <= i < ns.len() ==> nodes_view(ns)[i] == nodes_view(ns.skip(1))[i - 1]);
        assert(forall|i: int| 1 <= i < ns.len() ==> ns.skip(1)[i - 1] == ns[i]);
    }
}

pub proof fn lemma_params_view_props(ps: Seq<TemplateParameter>)
    ensures
        params_view(ps).len() == ps.len(),
        forall|i: int|
            0 <= i < ps.len() ==> params_view(ps)[i] == (ParamView {
                name: ps[i].name@,
                value: ps[i].value@,
            }),
    decreases ps.len(),
{
    if ps.len() > 0 {
        lemma_params_view_props(ps.skip(1));
        assert(forall|i: int|
            1 <= i < ps.len() ==> params_view(ps)[i] == params_view(ps.skip(1))[i - 1]);
        assert(forall|i: int| 1 <= i < ps.len() ==> ps.skip(1)[i - 1] == ps[i]);
    }
}

fn append_child_node(n: SimplifiedNode, c: SimplifiedNode) -> (r: SimplifiedNode)
    ensures
        node_view(r) == node_view(n).with_child(node_view(c)),
{
    let cv = c;
    match n {
        SimplifiedNode::Fragment { mut children } => {
            proof {
                lemma_nodes_view_props(children@);
                lemma_nodes_view_props(children@.push(cv));
                assert(children@.push(cv).skip(0) =~= children@.push(cv));
                assert(nodes_view(children@.push(cv)) =~= nodes_view(children@).push(
                    node_view(cv),
                ));
            }
            children.push(cv);
            SimplifiedNode::Fragment { children }
        },
        SimplifiedNode::Bold { mut children } => {
            proof {
                lemma_nodes_view_props(children@);
                lemma_nodes_view_props(children@.push(cv));
                assert(nodes_view(children@.push(cv)) =~= nodes_view(children@).push(
                    node_view(cv),
                ));
            }
            children.push(cv);
            SimplifiedNode::Bold { children }
        },
        SimplifiedNode::Italic { mut children } => {
            proof {
                lemma_nodes_view_props(children@);
                lemma_nodes_view_props(children@.push(cv));
                assert(nodes_view(children@.push(cv)) =~= nodes_view(children@).push(
                    node_view(cv),
                ));
            }
            children.push(cv);
            SimplifiedNode::Italic { children }
        },
        SimplifiedNode::Blockquote { mut children } => {
            proof {
                lemma_nodes_view_props(children@);
                lemma_nodes_view_props(children@.push(cv));
                assert(nodes_view(children@.push(cv)) =~= nodes_view(children@).push(
                    node_view(cv),
                ));
            }
            children.push(cv);
            SimplifiedNode::Blockquote { children }
        },
        SimplifiedNode::Superscript { mut children } => {
            proof {
                lemma_nodes_view_props(children@);
                lemma_nodes_view_props(children@.push(cv));
                assert(nodes_view(children@.push(cv)) =~= nodes_view(children@).push(
                    node_view(cv),
                ));
            }
            children.push(cv);
            SimplifiedNode::Superscript { children }
        },
        SimplifiedNode::Subscript { mut children } => {
            proof {
                lemma_nodes_view_props(children@);
                lemma_nodes_view_props(children@.push(cv));
                assert(nodes_view(children@.push(cv)) =~= nodes_view(children@).push(
                    node_view(cv),
                ));
            }
            children.push(cv);
            SimplifiedNode::Subscript { children }
        },
        SimplifiedNode::Small { mut children } => {
            proof {
                lemma_nodes_view_props(children@);
                lemma_nodes_view_props(children@.push(cv));
                assert(nodes_view(children@.push(cv)) =~= nodes_view(children@).push(
                    node_view(cv),
                ));
            }
            children.push(cv);
            SimplifiedNode::Small { children }
        },
        SimplifiedNode::Preformatted { mut children } => {
            proof {
                lemma_nodes_view_props(children@);
                lemma_nodes_view_props(children@.push(cv));
                assert(nodes_view(children@.push(cv)) =~= nodes_view(children@).push(
                    node_view(cv),
                ));
            }
            children.push(cv);
            SimplifiedNode::Preformatted { children }
        },
        other => other,
    }
}

fn push_child(stack: &mut Vec<SimplifiedNode>, c: SimplifiedNode)
    requires
        old(stack)@.len() >= 1,
    ensures
        final(stack)@.len() == old(stack)@.len(),
        nodes_view(final(stack)@) == spec_push_child(nodes_view(old(stack)@), node_view(c)),
{
    let last = stack.pop().unwrap();
    let updated = append_child_node(last, c);
    stack.push(updated);
    proof {
        lemma_nodes_view_props(old(stack)@);
        lemma_nodes_view_props(final(stack)@);
        assert(final(stack)@ =~= old(stack)@.update(old(stack)@.len() - 1, updated));
        assert(nodes_view(final(stack)@) =~= spec_push_child(
            nodes_view(old(stack)@),
            node_view(c),
        ));
    }
}

fn close_top(stack: &mut Vec<SimplifiedNode>)
    ensures
        old(stack)@.len() >= 2 ==> final(stack)@.len() == old(stack)@.len() - 1,
        old(stack)@.len() < 2 ==> final(stack)@ == old(stack)@,
        nodes_view(final(stack)@) == spec_close_top(nodes_view(old(stack)@)),
{
    proof {
        lemma_nodes_view_props(stack@);
    }
    if stack.len() < 2 {
        return ;
    }
    let top = stack.pop().unwrap();
    proof {
        lemma_nodes_view_props(stack@);
        assert(stack@ =~= old(stack)@.drop_last());
        assert(nodes_view(stack@) =~= nodes_view(old(stack)@).drop_last());
        assert(node_view(top) == nodes_view(old(stack)@).last());
    }
    push_child(stack, top);
}

fn container_for(name: &String) -> (r: Option<SimplifiedNode>)
    ensures
        match r {
            Some(c) => tag_container(name@) == Some(node_view(c)),
            None => tag_container(name@) is None,
        },
{
    proof {
        reveal_strlit("blockquote");
        reveal_strlit("sup");
        reveal_strlit("sub");
        reveal_strlit("small");
        assert("blockquote"@.len() == 10);
        assert("sup"@.len() == 3);
        assert("sub"@.len() == 3);
        assert("small"@.len() == 5);
        assert("sup"@[1] == 'u');
        assert("sub"@[1] == 'u');
        assert("sup"@[2] == 'p');
        assert("sub"@[2] == 'b');
        assert("sup"@ != "sub"@);
    }
    if str_eq(name.as_str(), "blockquote") {
        Some(SimplifiedNode::Blockquote { children: Vec::new() })
    } else if str_eq(name.as_str(), "sup") {
        Some(SimplifiedNode::Superscript { children: Vec::new() })
    } else if str_eq(name.as_str(), "sub") {
        Some(SimplifiedNode::Subscript { children: Vec::new() })
    } else if str_eq(name.as_str(), "small") {
        Some(SimplifiedNode::Small { children: Vec::new() })
    } else {
        None
    }
}

} // verus!

verus! {

pub open spec fn params_result_append(
    a: Seq<ParamView>,
    r: Result<Seq<ParamView>, SimplifyError>,
) -> Result<Seq<ParamView>, SimplifyError> {
    match r {
        Ok(b) => Ok(a + b),
        Err(e) => Err(e),
    }
}

fn simplify_params(wikitext: &Vec<u8>, ps: &Vec<WtParameter>) -> (r: Result<
    Vec<TemplateParameter>,
    SimplifyError,
>)
    ensures
        match r {
            Ok(v) => spec_simplify_params(wikitext@, ps@, 1) == Ok::<_, SimplifyError>(
                params_view(v@),
            ),
            Err(e) => spec_simplify_params(wikitext@, ps@, 1) == Err::<Seq<ParamView>, _>(e),
        },
    decreases ps@, 5int,
{
    let config = InnerTextConfig { stop_after_br: false };
    let mut out: Vec<TemplateParameter> = Vec::new();
    let mut unnamed: usize = 0;
    let n = ps.len();
    let mut i: usize = 0;
    proof {
        assert(ps@.skip(0) =~= ps@);
        assert(params_view(out@) =~= Seq::<ParamView>::empty());
    }
    while i < n
        invariant
            i <= n,
            n == ps@.len(),
            unnamed <= i,
            !config.stop_after_br,
            spec_simplify_params(wikitext@, ps@, 1) == params_result_append(
                params_view(out@),
                spec_simplify_params(wikitext@, ps@.skip(i as int), unnamed + 1),
            ),
        decreases n - i,
    {
        proof {
            assert(ps@.skip(i as int)[0] == ps@[i as int]);
            assert(ps@.skip(i as int).skip(1) =~= ps@.skip(i as int + 1));
        }
        let p = &ps[i];
        let name: String = match &p.name {
            Some(nv) => nodes_inner_text(nv, &config),
            None => {
                let s = usize_to_string(unnamed + 1);
                s
            },
        };
        let ghost next_idx: int = if p.name is None {
            unnamed + 2
        } else {
            unnamed + 1
        };
        let (vs, ve): (usize, usize) = if p.value.len() > 0 {
            (p.value[0].start(), p.value[p.value.len() - 1].end())
        } else {
            (0, 0)
        };
        if !(vs <= ve && ve <= wikitext.len()) {
            return Err(SimplifyError::BadSlice);
        }
        let slice = bytes_slice(wikitext, vs, ve);
        let value: String = match bytes_to_string(&slice) {
            Some(s) => s,
            None => {
                return Err(SimplifyError::BadSlice);
            },
        };
        let ghost old_out = out@;
        out.push(TemplateParameter { name, value });
        if p.name.is_none() {
            unnamed = unnamed + 1;
        }
        i = i + 1;
        proof {
            lemma_params_view_props(old_out);
            lemma_params_view_props(out@);
            let pv = ParamView {
                name: params_view(out@).last().name,
                value: params_view(out@).last().value,
            };
            assert(params_view(out@) =~= params_view(old_out) + seq![pv]);
            assert(spec_simplify_params(wikitext@, ps@.skip(i - 1), unnamed_pre(next_idx, ps@[i - 1]))
                == params_result_append(
                seq![pv],
                spec_simplify_params(wikitext@, ps@.skip(i as int), next_idx),
            )) by {
                assert(ps@.skip(i - 1)[0] == ps@[i - 1]);
            }
            assert(params_result_append(
                params_view(old_out),
                params_result_append(
                    seq![pv],
                    spec_simplify_params(wikitext@, ps@.skip(i as int), next_idx),
                ),
            ) == params_result_append(
                params_view(out@),
                spec_simplify_params(wikitext@, ps@.skip(i as int), next_idx),
            )) by {
                match spec_simplify_params(wikitext@, ps@.skip(i as int), next_idx) {
                    Ok(rest) => {
                        assert(params_view(old_out) + (seq![pv] + rest) =~= params_view(out@)
                            + rest);
                    },
                    Err(_) => {},
                }
            }
        }
    }
    proof {
        assert(spec_simplify_params(wikitext@, ps@.skip(n as int), unnamed + 1) == Ok::<
            _,
            SimplifyError,
        >(Seq::<ParamView>::empty()));
        assert(params_view(out@) + Seq::<ParamView>::empty() =~= params_view(out@));
    }
    Ok(out)
}

/// The spec index that stands before a parameter was consumed.
pub open spec fn unnamed_pre(next_idx: int, p: WtParameter) -> int {
    if p.name is None {
        next_idx - 1
    } else {
        next_idx
    }
}

} // verus!

verus! {

fn simplify_one_node(wikitext: &Vec<u8>, n: &WtNode) -> (r: Result<
    Option<SimplifiedNode>,
    SimplifyError,
>)
    ensures
        match r {
            Ok(Some(c)) => spec_simplify_node(wikitext@, *n) == Ok::<_, SimplifyError>(
                Some(node_view(c)),
            ),
            Ok(None) => spec_simplify_node(wikitext@, *n) == Ok::<_, SimplifyError>(
                None::<SimpleView>,
            ),
            Err(e) => spec_simplify_node(wikitext@, *n) == Err::<Option<SimpleView>, _>(e),
        },
    decreases *n, 6int,
{
    let config = InnerTextConfig { stop_after_br: false };
    match n {
        WtNode::Template { name, parameters, .. } => {
            let tname = nodes_inner_text(name, &config);
            match simplify_params(wikitext, parameters) {
                Ok(children) => Ok(
                    Some(SimplifiedNode::Template { name: tname, children }),
                ),
                Err(e) => Err(e),
            }
        },
        WtNode::MagicWord { .. } => Ok(None),
        WtNode::Bold { .. } => Ok(None),
        WtNode::BoldItalic { .. } => Ok(None),
        WtNode::Italic { .. } => Ok(None),
        WtNode::Link { target, text, .. } => {
            let link_text = nodes_inner_text(text, &config);
            Ok(Some(SimplifiedNode::Link { text: link_text, title: target.clone() }))
        },
        WtNode::ExternalLink { nodes, .. } => {
            let inner = nodes_inner_text(nodes, &config);
            let inner_len = inner.as_str().unicode_len();
            let mut found = false;
            let mut i: usize = 0;
            while i < inner_len && !found
                invariant
                    i <= inner_len,
                    inner_len == inner@.len(),
                    !found ==> first_space_from(inner@, 0) == first_space_from(
                        inner@,
                        i as int,
                    ),
                    found ==> i < inner_len && first_space_from(inner@, 0) == Some(i as int),
                decreases inner_len - i, (if found { 0int } else { 1int }),
            {
                if inner.as_str().get_char(i) == ' ' {
                    found = true;
                } else {
                    i = i + 1;
                }
            }
            let space: Option<usize> = if found {
                Some(i)
            } else {
                None
            };
            match space {
                Some(k) => {
                    proof {
                        assert(first_space_from(inner@, 0) == Some(k as int));
                    }
                    let text_part = inner.as_str().substring_char(0, k).to_owned();
                    let link_part = inner.as_str().substring_char(k + 1, inner_len).to_owned();
                    proof {
                        assert(text_part@ =~= inner@.take(k as int));
                        assert(link_part@ =~= inner@.skip(k as int + 1));
                    }
                    Ok(Some(SimplifiedNode::ExtLink { text: text_part, link: link_part }))
                },
                None => {
                    proof {
                        assert(first_space_from(inner@, inner_len as int) is None);
                    }
                    let text_part = String::from_str("link");
                    Ok(Some(SimplifiedNode::ExtLink { text: text_part, link: inner }))
                },
            }
        },
        WtNode::Text { value, .. } => Ok(Some(SimplifiedNode::Text { text: value.clone() })),
        WtNode::CharacterEntity { character, .. } => {
            let mut s = String::new();
            crate::strutil::push_char(&mut s, *character);
            proof {
                assert(s@ =~= seq![*character]);
            }
            Ok(Some(SimplifiedNode::Text { text: s }))
        },
        WtNode::ParagraphBreak { .. } => Ok(Some(SimplifiedNode::ParagraphBreak)),
        WtNode::Category { .. } => Ok(None),
        WtNode::Comment { .. } => Ok(None),
        WtNode::Image { .. } => Ok(None),
        WtNode::DefinitionList { .. } => Ok(None),
        WtNode::OrderedList { .. } => Ok(None),
        WtNode::UnorderedList { .. } => Ok(None),
        WtNode::Tag { name, .. } => {
            if str_eq(name.as_str(), "nowiki") || str_eq(name.as_str(), "references") || str_eq(
                name.as_str(),
                "gallery",
            ) {
                Ok(None)
            } else {
                Err(SimplifyError::UnknownNode { start: n.start(), end: n.end() })
            }
        },
        WtNode::StartTag { name, .. } => {
            if str_eq(name.as_str(), "br") {
                Ok(Some(SimplifiedNode::Newline))
            } else {
                Err(SimplifyError::UnknownNode { start: n.start(), end: n.end() })
            }
        },
        WtNode::Preformatted { nodes, .. } => match simplify_wikitext_nodes(wikitext, nodes) {
            Ok(children) => Ok(Some(SimplifiedNode::Preformatted { children })),
            Err(e) => Err(e),
        },
        _ => Err(SimplifyError::UnknownNode { start: n.start(), end: n.end() }),
    }
}

/// Builds the simplified tree for a parsed node list: inline markup is
/// parenthesised with the sentinel stack and anything still open at the end
/// of input is closed implicitly.
pub fn simplify_wikitext_nodes(wikitext: &Vec<u8>, nodes: &Vec<WtNode>) -> (r: Result<
    Vec<SimplifiedNode>,
    SimplifyError,
>)
    ensures
        match r {
            Ok(v) => spec_simplify(wikitext@, nodes@) == Ok::<_, SimplifyError>(nodes_view(v@)),
            Err(e) => spec_simplify(wikitext@, nodes@) == Err::<Seq<SimpleView>, _>(e),
        },
    decreases nodes@, 7int,
{
    let mut stack: Vec<SimplifiedNode> = Vec::new();
    stack.push(SimplifiedNode::Fragment { children: Vec::new() });
    proof {
        assert(nodes_view(stack@) =~~= sentinel()) by {
            lemma_nodes_view_props(stack@);
            assert(nodes_view(Seq::<SimplifiedNode>::empty()) =~= Seq::<SimpleView>::empty());
        }
        assert(nodes@.skip(0) =~= nodes@);
    }
    let n = nodes.len();
    let mut i: usize = 0;
    while i < n
        invariant
            i <= n,
            n == nodes@.len(),
            stack@.len() >= 1,
            spec_fold(wikitext@, nodes_view(stack@), nodes@.skip(i as int)) == spec_fold(
                wikitext@,
                sentinel(),
                nodes@,
            ),
        decreases n - i,
    {
        proof {
            assert(nodes@.skip(i as int)[0] == nodes@[i as int]);
            assert(nodes@.skip(i as int).skip(1) =~= nodes@.skip(i as int + 1));
            lemma_nodes_view_props(stack@);
        }
        let ghost pre_view = nodes_view(stack@);
        let node = &nodes[i];
        match node {
            WtNode::Bold { .. } => {
                let top_is_bold = matches!(&stack[stack.len() - 1], SimplifiedNode::Bold { .. });
                proof {
                    assert(top_is_bold == (pre_view.last() is Bold));
                }
                if top_is_bold {
                    close_top(&mut stack);
                } else {
                    stack.push(SimplifiedNode::Bold { children: Vec::new() });
                    proof {
                        lemma_nodes_view_props(stack@);
                        assert(nodes_view(stack@) =~= pre_view.push(
                            SimpleView::Bold { children: Seq::empty() },
                        )) by {
                            lemma_nodes_view_props(stack@.drop_last());
                            assert(stack@.drop_last() =~= stack@.subrange(
                                0,
                                stack@.len() - 1,
                            ));
                            assert(nodes_view(Seq::<SimplifiedNode>::empty()) =~= Seq::<
                                SimpleView,
                            >::empty());
                        }
                    }
                }
            },
            WtNode::Italic { .. } => {
                let top_is_italic = matches!(
                    &stack[stack.len() - 1],
                    SimplifiedNode::Italic { .. }
                );
                proof {
                    assert(top_is_italic == (pre_view.last() is Italic));
                }
                if top_is_italic {
                    close_top(&mut stack);
                } else {
                    stack.push(SimplifiedNode::Italic { children: Vec::new() });
                    proof {
                        lemma_nodes_view_props(stack@);
                        assert(nodes_view(stack@) =~= pre_view.push(
                            SimpleView::Italic { children: Seq::empty() },
                        )) by {
                            assert(nodes_view(Seq::<SimplifiedNode>::empty()) =~= Seq::<
                                SimpleView,
                            >::empty());
                        }
                    }
                }
            },
            WtNode::BoldItalic { .. } => {
                let close_both = stack.len() >= 3 && matches!(
                    &stack[stack.len() - 1],
                    SimplifiedNode::Italic { .. }
                ) && matches!(&stack[stack.len() - 2], SimplifiedNode::Bold { .. });
                proof {
                    assert(close_both == (pre_view.len() >= 3 && pre_view.last() is Italic
                        && pre_view[pre_view.len() - 2] is Bold));
                }
                if close_both {
                    let italic = stack.pop().unwrap();
                    let bold = stack.pop().unwrap();
                    proof {
                        lemma_nodes_view_props(stack@);
                    }
                    let merged = append_child_node(bold, italic);
                    push_child(&mut stack, merged);
                    proof {
                        assert(nodes_view(stack@) =~= spec_push_child(
                            pre_view.take(pre_view.len() - 2),
                            pre_view[pre_view.len() - 2].with_child(pre_view.last()),
                        )) by {
                            lemma_nodes_view_props(stack@);
                        }
                    }
                } else {
                    stack.push(SimplifiedNode::Bold { children: Vec::new() });
                    stack.push(SimplifiedNode::Italic { children: Vec::new() });
                    proof {
                        lemma_nodes_view_props(stack@);
                        assert(nodes_view(stack@) =~= pre_view.push(
                            SimpleView::Bold { children: Seq::empty() },
                        ).push(SimpleView::Italic { children: Seq::empty() })) by {
                            assert(nodes_view(Seq::<SimplifiedNode>::empty()) =~= Seq::<
                                SimpleView,
                            >::empty());
                        }
                    }
                }
            },
            WtNode::StartTag { name, .. } => {
                match container_for(name) {
                    Some(c) => {
                        let ghost cv = node_view(c);
                        stack.push(c);
                        proof {
                            lemma_nodes_view_props(stack@);
                            assert(nodes_view(stack@) =~= pre_view.push(cv));
                        }
                    },
                    None => {
                        match simplify_one_node(wikitext, node) {
                            Ok(Some(c)) => {
                                push_child(&mut stack, c);
                            },
                            Ok(None) => {},
                            Err(e) => {
                                return Err(e);
                            },
                        }
                    },
                }
            },
            WtNode::EndTag { name, .. } => {
                let is_container_tag = match container_for(name) {
                    Some(_) => true,
                    None => false,
                };
                if is_container_tag {
                    close_top(&mut stack);
                } else {
                    match simplify_one_node(wikitext, node) {
                        Ok(Some(c)) => {
                            push_child(&mut stack, c);
                        },
                        Ok(None) => {},
                        Err(e) => {
                            return Err(e);
                        },
                    }
                }
            },
            _ => {
                match simplify_one_node(wikitext, node) {
                    Ok(Some(c)) => {
                        push_child(&mut stack, c);
                    },
                    Ok(None) => {},
                    Err(e) => {
                        return Err(e);
                    },
                }
            },
        }
        proof {
            assert(spec_step(wikitext@, pre_view, nodes@[i as int]) == Ok::<_, SimplifyError>(
                nodes_view(stack@),
            ));
        }
        i = i + 1;
    }
    proof {
        assert(nodes@.skip(n as int).len() == 0);
    }
    let ghost folded = nodes_view(stack@);
    while stack.len() > 1
        invariant
            stack@.len() >= 1,
            spec_unwind(nodes_view(stack@)) == spec_unwind(folded),
        decreases stack@.len(),
    {
        proof {
            lemma_nodes_view_props(stack@);
        }
        let ghost pre_view = nodes_view(stack@);
        let top = stack.pop().unwrap();
        proof {
            lemma_nodes_view_props(stack@);
            assert(nodes_view(stack@) =~= pre_view.drop_last());
            assert(node_view(top) == pre_view.last());
        }
        push_child(&mut stack, top);
    }
    proof {
        lemma_nodes_view_props(stack@);
        assert(spec_unwind(nodes_view(stack@)) == nodes_view(stack@));
    }
    let root = stack.pop().unwrap();
    let children: Vec<SimplifiedNode> = match root {
        SimplifiedNode::Fragment { children } => children,
        SimplifiedNode::Bold { children } => children,
        SimplifiedNode::Italic { children } => children,
        SimplifiedNode::Blockquote { children } => children,
        SimplifiedNode::Superscript { children } => children,
        SimplifiedNode::Subscript { children } => children,
        SimplifiedNode::Small { children } => children,
        SimplifiedNode::Preformatted { children } => children,
        _ => Vec::new(),
    };
    proof {
        assert(nodes_view(children@) =~~= spec_unwind(folded)[0].children_of());
    }
    Ok(children)
}

} // verus!
