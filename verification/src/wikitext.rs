//! The wikitext parse tree, modelled as plain data, and the trusted bridge
//! to the `parse_wiki_text_2` parser that produces it.

use vstd::prelude::*;
use parse_wiki_text_2 as pwt;

verus! {

/// A wikitext parse node. Mirrors the parser's own node type with plain
/// values: spans are byte offsets into the parsed text.
#[derive(Debug, PartialEq)]
pub enum WtNode {
    Bold { start: usize, end: usize },
    BoldItalic { start: usize, end: usize },
    Category { start: usize, end: usize, ordinal: Vec<WtNode>, target: String },
    CharacterEntity { start: usize, end: usize, character: char },
    Comment { start: usize, end: usize },
    DefinitionList { start: usize, end: usize, items: Vec<WtListItem> },
    EndTag { start: usize, end: usize, name: String },
    ExternalLink { start: usize, end: usize, nodes: Vec<WtNode> },
    Heading { start: usize, end: usize, level: u8, nodes: Vec<WtNode> },
    HorizontalDivider { start: usize, end: usize },
    Image { start: usize, end: usize, target: String, text: Vec<WtNode> },
    Italic { start: usize, end: usize },
    Link { start: usize, end: usize, target: String, text: Vec<WtNode> },
    MagicWord { start: usize, end: usize },
    OrderedList { start: usize, end: usize, items: Vec<WtListItem> },
    ParagraphBreak { start: usize, end: usize },
    Parameter { start: usize, end: usize, name: Vec<WtNode>, default: Option<Vec<WtNode>> },
    Preformatted { start: usize, end: usize, nodes: Vec<WtNode> },
    Redirect { start: usize, end: usize, target: String },
    StartTag { start: usize, end: usize, name: String },
    Table {
        start: usize,
        end: usize,
        attributes: Vec<WtNode>,
        captions: Vec<WtTableCaption>,
        rows: Vec<WtTableRow>,
    },
    Tag { start: usize, end: usize, name: String, nodes: Vec<WtNode> },
    Template { start: usize, end: usize, name: Vec<WtNode>, parameters: Vec<WtParameter> },
    Text { start: usize, end: usize, value: String },
    UnorderedList { start: usize, end: usize, items: Vec<WtListItem> },
}

/// A template parameter: an optional name and a value, both node lists.
#[derive(Debug, PartialEq)]
pub struct WtParameter {
    pub start: usize,
    pub end: usize,
    pub name: Option<Vec<WtNode>>,
    pub value: Vec<WtNode>,
}

/// An item of an ordered or unordered list.
#[derive(Debug, PartialEq)]
pub struct WtListItem {
    pub start: usize,
    pub end: usize,
    pub nodes: Vec<WtNode>,
}

/// A caption of a table.
#[derive(Debug, PartialEq)]
pub struct WtTableCaption {
    pub attributes: Option<Vec<WtNode>>,
    pub content: Vec<WtNode>,
}

/// A row of a table.
#[derive(Debug, PartialEq)]
pub struct WtTableRow {
    pub attributes: Vec<WtNode>,
    pub cells: Vec<WtTableCell>,
}

/// A cell of a table row.
#[derive(Debug, PartialEq)]
pub struct WtTableCell {
    pub attributes: Option<Vec<WtNode>>,
    pub content: Vec<WtNode>,
}

#[verifier::external_type_specification]
#[verifier::external_body]
pub struct ExConfiguration(pwt::Configuration);

#[verifier::external_type_specification]
#[verifier::external_body]
pub struct ExNode<'a>(pwt::Node<'a>);

#[verifier::external_type_specification]
#[verifier::external_body]
pub struct ExParameter<'a>(pwt::Parameter<'a>);

#[verifier::external_type_specification]
#[verifier::external_body]
pub struct ExListItem<'a>(pwt::ListItem<'a>);

#[verifier::external_type_specification]
#[verifier::external_body]
pub struct ExDefinitionListItem<'a>(pwt::DefinitionListItem<'a>);

#[verifier::external_type_specification]
#[verifier::external_body]
pub struct ExTableCaption<'a>(pwt::TableCaption<'a>);

#[verifier::external_type_specification]
#[verifier::external_body]
pub struct ExTableRow<'a>(pwt::TableRow<'a>);

#[verifier::external_type_specification]
#[verifier::external_body]
pub struct ExTableCell<'a>(pwt::TableCell<'a>);

/// Relies on iterating the parser's node list; each node is handed to
/// [`conv_node`], moving fields only.
#[verifier::external_body]
fn conv_nodes(nodes: &[pwt::Node<'_>]) -> Vec<WtNode> {
    nodes.iter().map(conv_node).collect()
}

/// Relies on the variants of `parse_wiki_text_2::Node`. Each converter of
/// this chain moves the fields of a few variants and hands every other
/// variant on.
#[verifier::external_body]
fn conv_node(node: &pwt::Node<'_>) -> WtNode {
    match node {
        pwt::Node::Bold { start, end } => WtNode::Bold { start: *start, end: *end },
        pwt::Node::BoldItalic { start, end } => WtNode::BoldItalic { start: *start, end: *end },
        pwt::Node::Comment { start, end } => WtNode::Comment { start: *start, end: *end },
        pwt::Node::HorizontalDivider { start, end } => WtNode::HorizontalDivider { start: *start, end: *end },
        pwt::Node::Italic { start, end } => WtNode::Italic { start: *start, end: *end },
        other => conv_node_b(other),
    }
}

/// The second converter of the chain over `parse_wiki_text_2::Node`:
/// plain text and breaks.
#[verifier::external_body]
fn conv_node_b(node: &pwt::Node<'_>) -> WtNode {
    match node {
        pwt::Node::MagicWord { start, end } => WtNode::MagicWord { start: *start, end: *end },
        pwt::Node::ParagraphBreak { start, end } => WtNode::ParagraphBreak { start: *start, end: *end },
        pwt::Node::Text { start, end, value } => WtNode::Text { start: *start, end: *end, value: value.to_string() },
        pwt::Node::CharacterEntity { start, end, character } => WtNode::CharacterEntity { start: *start, end: *end, character: *character },
        other => conv_node_c(other),
    }
}

/// The third converter of the chain over `parse_wiki_text_2::Node`:
/// named tags and redirects.
#[verifier::external_body]
fn conv_node_c(node: &pwt::Node<'_>) -> WtNode {
    match node {
        pwt::Node::StartTag { start, end, name } => WtNode::StartTag { start: *start, end: *end, name: name.to_string() },
        pwt::Node::EndTag { start, end, name } => WtNode::EndTag { start: *start, end: *end, name: name.to_string() },
        pwt::Node::Redirect { start, end, target } => WtNode::Redirect { start: *start, end: *end, target: target.to_string() },
        other => conv_node_d(other),
    }
}

/// The fourth converter of the chain over `parse_wiki_text_2::Node`:
/// targeted links and images.
#[verifier::external_body]
fn conv_node_d(node: &pwt::Node<'_>) -> WtNode {
    match node {
        pwt::Node::Link { start, end, target, text } => WtNode::Link { start: *start, end: *end, target: target.to_string(), text: conv_nodes(text) },
        pwt::Node::Image { start, end, target, text } => WtNode::Image { start: *start, end: *end, target: target.to_string(), text: conv_nodes(text) },
        pwt::Node::Category { start, end, target, ordinal } => WtNode::Category { start: *start, end: *end, target: target.to_string(), ordinal: conv_nodes(ordinal) },
        other => conv_node_e(other),
    }
}

/// The fifth converter of the chain over `parse_wiki_text_2::Node`:
/// containers of plain node lists.
#[verifier::external_body]
fn conv_node_e(node: &pwt::Node<'_>) -> WtNode {
    match node {
        pwt::Node::ExternalLink { start, end, nodes } => WtNode::ExternalLink { start: *start, end: *end, nodes: conv_nodes(nodes) },
        pwt::Node::Heading { start, end, level, nodes } => WtNode::Heading { start: *start, end: *end, level: *level, nodes: conv_nodes(nodes) },
        pwt::Node::Preformatted { start, end, nodes } => WtNode::Preformatted { start: *start, end: *end, nodes: conv_nodes(nodes) },
        other => conv_node_f(other),
    }
}

/// The sixth converter of the chain over `parse_wiki_text_2::Node`:
/// templates and template parameters.
#[verifier::external_body]
fn conv_node_f(node: &pwt::Node<'_>) -> WtNode {
    match node {
        pwt::Node::Template { start, end, name, parameters } => WtNode::Template { start: *start, end: *end, name: conv_nodes(name), parameters: parameters.iter().map(conv_parameter).collect() },
        pwt::Node::Parameter { start, end, name, default } => WtNode::Parameter { start: *start, end: *end, name: conv_nodes(name), default: default.as_ref().map(|d| conv_nodes(d)) },
        other => conv_node_g(other),
    }
}

/// The seventh converter of the chain over `parse_wiki_text_2::Node`:
/// extension tags and plain lists.
#[verifier::external_body]
fn conv_node_g(node: &pwt::Node<'_>) -> WtNode {
    match node {
        pwt::Node::Tag { start, end, name, nodes } => WtNode::Tag { start: *start, end: *end, name: name.to_string(), nodes: conv_nodes(nodes) },
        pwt::Node::OrderedList { start, end, items } => WtNode::OrderedList { start: *start, end: *end, items: items.iter().map(conv_list_item).collect() },
        pwt::Node::UnorderedList { start, end, items } => WtNode::UnorderedList { start: *start, end: *end, items: items.iter().map(conv_list_item).collect() },
        other => conv_node_h(other),
    }
}

/// The last converter of the chain over `parse_wiki_text_2::Node`:
/// definition lists and tables. Every other variant was taken by a
/// converter before this one.
#[verifier::external_body]
fn conv_node_h(node: &pwt::Node<'_>) -> WtNode {
    match node {
        pwt::Node::DefinitionList { start, end, items } => WtNode::DefinitionList { start: *start, end: *end, items: items.iter().map(conv_definition_item).collect() },
        pwt::Node::Table { start, end, attributes, captions, rows } => WtNode::Table {
            start: *start,
            end: *end,
            attributes: conv_nodes(attributes),
            captions: captions.iter().map(conv_caption).collect(),
            rows: rows.iter().map(conv_row).collect(),
        },
        // Dead arm: every variant is matched along the chain.
        _ => WtNode::Comment { start: 0, end: 0 },
    }
}

/// Relies on the parser's `Parameter` struct, moving fields only.
#[verifier::external_body]
fn conv_parameter(p: &pwt::Parameter<'_>) -> WtParameter {
    WtParameter {
        start: p.start,
        end: p.end,
        name: p.name.as_ref().map(|n| conv_nodes(n)),
        value: conv_nodes(&p.value),
    }
}

/// Relies on the parser's `ListItem` struct, moving fields only.
#[verifier::external_body]
fn conv_list_item(it: &pwt::ListItem<'_>) -> WtListItem {
    WtListItem { start: it.start, end: it.end, nodes: conv_nodes(&it.nodes) }
}

/// Relies on the parser's `DefinitionListItem` struct, moving fields only.
/// The item kind is not kept: the pipeline drops definition lists.
#[verifier::external_body]
fn conv_definition_item(it: &pwt::DefinitionListItem<'_>) -> WtListItem {
    WtListItem { start: it.start, end: it.end, nodes: conv_nodes(&it.nodes) }
}

/// Relies on the parser's `TableCaption` struct, moving fields only.
#[verifier::external_body]
fn conv_caption(c: &pwt::TableCaption<'_>) -> WtTableCaption {
    WtTableCaption {
        attributes: c.attributes.as_ref().map(|a| conv_nodes(a)),
        content: conv_nodes(&c.content),
    }
}

/// Relies on the parser's `TableRow` struct, moving fields only.
#[verifier::external_body]
fn conv_row(r: &pwt::TableRow<'_>) -> WtTableRow {
    WtTableRow {
        attributes: conv_nodes(&r.attributes),
        cells: r.cells.iter().map(conv_cell).collect(),
    }
}

/// Relies on the parser's `TableCell` struct, moving fields only.
#[verifier::external_body]
fn conv_cell(c: &pwt::TableCell<'_>) -> WtTableCell {
    WtTableCell {
        attributes: c.attributes.as_ref().map(|a| conv_nodes(a)),
        content: conv_nodes(&c.content),
    }
}

/// Relies on `Configuration::new`: builds the parser configuration from the
/// given site tables.
#[verifier::external_body]
pub fn configuration_new(
    category_namespaces: &Vec<&str>,
    extension_tags: &Vec<&str>,
    file_namespaces: &Vec<&str>,
    link_trail: &str,
    magic_words: &Vec<&str>,
    protocols: &Vec<&str>,
    redirect_magic_words: &Vec<&str>,
) -> pwt::Configuration {
    pwt::Configuration::new(&pwt::ConfigurationSource {
        category_namespaces: category_namespaces.as_slice(),
        extension_tags: extension_tags.as_slice(),
        file_namespaces: file_namespaces.as_slice(),
        link_trail,
        magic_words: magic_words.as_slice(),
        protocols: protocols.as_slice(),
        redirect_magic_words: redirect_magic_words.as_slice(),
    })
}

/// Relies on `Configuration::parse_with_timeout` with the pipeline's
/// one-second page budget; the parsed nodes are converted into [`WtNode`]
/// values, and a parse failure or timeout is reported as `None`.
#[verifier::external_body]
pub fn parse_wikitext(configuration: &pwt::Configuration, text: &Vec<u8>) -> (r: Option<
    Vec<WtNode>,
>) {
    let s = match core::str::from_utf8(text) {
        Ok(s) => s,
        Err(_) => return None,
    };
    let out = match configuration.parse_with_timeout(s, std::time::Duration::from_secs(1)) {
        Ok(o) => o,
        Err(_) => return None,
    };
    Some(conv_nodes(&out.nodes))
}

} // verus!


verus! {

impl WtNode {
    /// The byte position in the parsed text where the node starts.
    pub open spec fn spec_start(self) -> int {
        match self {
            WtNode::Bold { start, .. } => start as int,
            WtNode::BoldItalic { start, .. } => start as int,
            WtNode::Category { start, .. } => start as int,
            WtNode::CharacterEntity { start, .. } => start as int,
            WtNode::Comment { start, .. } => start as int,
            WtNode::DefinitionList { start, .. } => start as int,
            WtNode::EndTag { start, .. } => start as int,
            WtNode::ExternalLink { start, .. } => start as int,
            WtNode::Heading { start, .. } => start as int,
            WtNode::HorizontalDivider { start, .. } => start as int,
            WtNode::Image { start, .. } => start as int,
            WtNode::Italic { start, .. } => start as int,
            WtNode::Link { start, .. } => start as int,
            WtNode::MagicWord { start, .. } => start as int,
            WtNode::OrderedList { start, .. } => start as int,
            WtNode::ParagraphBreak { start, .. } => start as int,
            WtNode::Parameter { start, .. } => start as int,
            WtNode::Preformatted { start, .. } => start as int,
            WtNode::Redirect { start, .. } => start as int,
            WtNode::StartTag { start, .. } => start as int,
            WtNode::Table { start, .. } => start as int,
            WtNode::Tag { start, .. } => start as int,
            WtNode::Template { start, .. } => start as int,
            WtNode::Text { start, .. } => start as int,
            WtNode::UnorderedList { start, .. } => start as int,
        }
    }

    /// The byte position in the parsed text where the node ends.
    pub open spec fn spec_end(self) -> int {
        match self {
            WtNode::Bold { end, .. } => end as int,
            WtNode::BoldItalic { end, .. } => end as int,
            WtNode::Category { end, .. } => end as int,
            WtNode::CharacterEntity { end, .. } => end as int,
            WtNode::Comment { end, .. } => end as int,
            WtNode::DefinitionList { end, .. } => end as int,
            WtNode::EndTag { end, .. } => end as int,
            WtNode::ExternalLink { end, .. } => end as int,
            WtNode::Heading { end, .. } => end as int,
            WtNode::HorizontalDivider { end, .. } => end as int,
            WtNode::Image { end, .. } => end as int,
            WtNode::Italic { end, .. } => end as int,
            WtNode::Link { end, .. } => end as int,
            WtNode::MagicWord { end, .. } => end as int,
            WtNode::OrderedList { end, .. } => end as int,
            WtNode::ParagraphBreak { end, .. } => end as int,
            WtNode::Parameter { end, .. } => end as int,
            WtNode::Preformatted { end, .. } => end as int,
            WtNode::Redirect { end, .. } => end as int,
            WtNode::StartTag { end, .. } => end as int,
            WtNode::Table { end, .. } => end as int,
            WtNode::Tag { end, .. } => end as int,
            WtNode::Template { end, .. } => end as int,
            WtNode::Text { end, .. } => end as int,
            WtNode::UnorderedList { end, .. } => end as int,
        }
    }

    pub fn start(&self) -> (r: usize)
        ensures
            r as int == self.spec_start(),
    {
        match self {
            WtNode::Bold { start, .. } => *start,
            WtNode::BoldItalic { start, .. } => *start,
            WtNode::Category { start, .. } => *start,
            WtNode::CharacterEntity { start, .. } => *start,
            WtNode::Comment { start, .. } => *start,
            WtNode::DefinitionList { start, .. } => *start,
            WtNode::EndTag { start, .. } => *start,
            WtNode::ExternalLink { start, .. } => *start,
            WtNode::Heading { start, .. } => *start,
            WtNode::HorizontalDivider { start, .. } => *start,
            WtNode::Image { start, .. } => *start,
            WtNode::Italic { start, .. } => *start,
            WtNode::Link { start, .. } => *start,
            WtNode::MagicWord { start, .. } => *start,
            WtNode::OrderedList { start, .. } => *start,
            WtNode::ParagraphBreak { start, .. } => *start,
            WtNode::Parameter { start, .. } => *start,
            WtNode::Preformatted { start, .. } => *start,
            WtNode::Redirect { start, .. } => *start,
            WtNode::StartTag { start, .. } => *start,
            WtNode::Table { start, .. } => *start,
            WtNode::Tag { start, .. } => *start,
            WtNode::Template { start, .. } => *start,
            WtNode::Text { start, .. } => *start,
            WtNode::UnorderedList { start, .. } => *start,
        }
    }

    pub fn end(&self) -> (r: usize)
        ensures
            r as int == self.spec_end(),
    {
        match self {
            WtNode::Bold { end, .. } => *end,
            WtNode::BoldItalic { end, .. } => *end,
            WtNode::Category { end, .. } => *end,
            WtNode::CharacterEntity { end, .. } => *end,
            WtNode::Comment { end, .. } => *end,
            WtNode::DefinitionList { end, .. } => *end,
            WtNode::EndTag { end, .. } => *end,
            WtNode::ExternalLink { end, .. } => *end,
            WtNode::Heading { end, .. } => *end,
            WtNode::HorizontalDivider { end, .. } => *end,
            WtNode::Image { end, .. } => *end,
            WtNode::Italic { end, .. } => *end,
            WtNode::Link { end, .. } => *end,
            WtNode::MagicWord { end, .. } => *end,
            WtNode::OrderedList { end, .. } => *end,
            WtNode::ParagraphBreak { end, .. } => *end,
            WtNode::Parameter { end, .. } => *end,
            WtNode::Preformatted { end, .. } => *end,
            WtNode::Redirect { end, .. } => *end,
            WtNode::StartTag { end, .. } => *end,
            WtNode::Table { end, .. } => *end,
            WtNode::Tag { end, .. } => *end,
            WtNode::Template { end, .. } => *end,
            WtNode::Text { end, .. } => *end,
            WtNode::UnorderedList { end, .. } => *end,
        }
    }

    /// True of a start tag with the given name.
    pub open spec fn spec_is_start_tag(self, name: Seq<char>) -> bool {
        match self {
            WtNode::StartTag { name: n, .. } => n@ == name,
            _ => false,
        }
    }
}

} // verus!

verus! {

/// Options for inner-text extraction.
#[derive(Debug, Clone, Copy)]
pub struct InnerTextConfig {
    /// Whether to stop at the first `<br>` tag.
    pub stop_after_br: bool,
}

impl Default for InnerTextConfig {
    fn default() -> (r: Self)
        ensures
            !r.stop_after_br,
    {
        InnerTextConfig { stop_after_br: false }
    }
}

pub open spec fn br_tag() -> Seq<char> {
    seq!['b', 'r']
}

/// The inner text of one node, without surrounding formatting. Containers
/// yield the trimmed text of their children; templates yield text only for
/// the language and transliteration templates, whose payload sits in a
/// parameter.
pub open spec fn spec_node_inner_text(n: WtNode, stop_br: bool) -> Seq<char>
    decreases n, 1int,
{
    match n {
        WtNode::CharacterEntity { character, .. } => seq![character],
        WtNode::Heading { nodes, .. } => spec_nodes_inner_text(nodes@, stop_br),
        WtNode::Image { text, .. } => spec_nodes_inner_text(text@, stop_br),
        WtNode::Link { text, .. } => spec_nodes_inner_text(text@, stop_br),
        WtNode::Preformatted { nodes, .. } => spec_nodes_inner_text(nodes@, stop_br),
        WtNode::Text { value, .. } => value@,
        WtNode::Template { name, parameters, .. } => {
            let tname = crate::strutil::ascii_lower(spec_nodes_inner_text(name@, stop_br));
            if tname == "lang"@ {
                spec_lang_template_text(parameters@, stop_br)
            } else if tname == "transliteration"@ || tname == "tlit"@ || tname == "transl"@ {
                spec_translit_template_text(parameters@, stop_br)
            } else {
                Seq::empty()
            }
        },
        _ => Seq::empty(),
    }
}

/// The concatenated inner text of a node list, stopping at the first `<br>`
/// start tag when asked to.
pub open spec fn spec_nodes_inner_text_raw(ns: Seq<WtNode>, stop_br: bool) -> Seq<char>
    decreases ns, 0int,
{
    if ns.len() == 0 {
        Seq::empty()
    } else if stop_br && ns[0].spec_is_start_tag(br_tag()) {
        Seq::empty()
    } else {
        spec_node_inner_text(ns[0], stop_br) + spec_nodes_inner_text_raw(ns.skip(1), stop_br)
    }
}

/// The joined and trimmed inner text of a node list.
pub open spec fn spec_nodes_inner_text(ns: Seq<WtNode>, stop_br: bool) -> Seq<char>
    decreases ns, 2int,
{
    crate::strutil::spec_trim(spec_nodes_inner_text_raw(ns, stop_br))
}

/// The text of a `lang` template: the value of its `text` parameter, or of
/// its second unnamed parameter.
pub open spec fn spec_lang_template_text(params: Seq<WtParameter>, stop_br: bool) -> Seq<char>
    decreases params, 4int,
{
    match spec_find_named_text(params, seq!['t', 'e', 'x', 't'], stop_br) {
        Some(text) => text,
        None => match spec_nth_unnamed_text(params, 1, stop_br) {
            Some(text) => text,
            None => Seq::empty(),
        },
    }
}

/// The text of a transliteration template: the value of its third unnamed
/// parameter if it has at least three, else of its second, else empty.
pub open spec fn spec_translit_template_text(params: Seq<WtParameter>, stop_br: bool) -> Seq<
    char,
>
    decreases params, 4int,
{
    if spec_count_unnamed(params) >= 3 {
        spec_nth_unnamed_text(params, 2, stop_br)->Some_0
    } else {
        match spec_nth_unnamed_text(params, 1, stop_br) {
            Some(text) => text,
            None => Seq::empty(),
        }
    }
}

/// The inner text of the value of the first parameter whose name has the
/// given inner text.
pub open spec fn spec_find_named_text(
    params: Seq<WtParameter>,
    key: Seq<char>,
    stop_br: bool,
) -> Option<Seq<char>>
    decreases params, 3int,
{
    if params.len() == 0 {
        None
    } else {
        let p = params[0];
        if p.name is Some && spec_nodes_inner_text(p.name->Some_0@, stop_br) == key {
            Some(spec_nodes_inner_text(p.value@, stop_br))
        } else {
            spec_find_named_text(params.skip(1), key, stop_br)
        }
    }
}

/// How many parameters of the list are unnamed.
pub open spec fn spec_count_unnamed(params: Seq<WtParameter>) -> int
    decreases params.len(),
{
    if params.len() == 0 {
        0
    } else {
        (if params[0].name is None {
            1int
        } else {
            0int
        }) + spec_count_unnamed(params.skip(1))
    }
}

/// The inner text of the value of the unnamed parameter at the given
/// position among the unnamed ones.
pub open spec fn spec_nth_unnamed_text(params: Seq<WtParameter>, k: int, stop_br: bool) -> Option<
    Seq<char>,
>
    decreases params, 3int,
{
    if params.len() == 0 {
        None
    } else if params[0].name is None {
        if k == 0 {
            Some(spec_nodes_inner_text(params[0].value@, stop_br))
        } else {
            spec_nth_unnamed_text(params.skip(1), k - 1, stop_br)
        }
    } else {
        spec_nth_unnamed_text(params.skip(1), k, stop_br)
    }
}

} // verus!

verus! {

fn is_br_start_tag(n: &WtNode) -> (r: bool)
    ensures
        r == n.spec_is_start_tag(br_tag()),
{
    proof {
        reveal_strlit("br");
        assert("br"@ =~= br_tag());
    }
    match n {
        WtNode::StartTag { name, .. } => crate::strutil::str_eq(name.as_str(), "br"),
        _ => false,
    }
}

/// Joins the inner text of the nodes without separators and trims the
/// result.
pub fn nodes_inner_text(nodes: &Vec<WtNode>, config: &InnerTextConfig) -> (r: String)
    ensures
        r@ == spec_nodes_inner_text(nodes@, config.stop_after_br),
    decreases nodes@, 2int,
{
    let raw = nodes_inner_text_raw(nodes, config);
    crate::strutil::trim_string(&raw)
}

fn nodes_inner_text_raw(nodes: &Vec<WtNode>, config: &InnerTextConfig) -> (r: String)
    ensures
        r@ == spec_nodes_inner_text_raw(nodes@, config.stop_after_br),
    decreases nodes@, 0int,
{
    let ghost stop = config.stop_after_br;
    let mut acc = String::new();
    let n = nodes.len();
    proof {
        assert(nodes@.skip(0) =~= nodes@);
    }
    let mut i: usize = 0;
    while i < n
        invariant
            i <= n,
            n == nodes@.len(),
            stop == config.stop_after_br,
            spec_nodes_inner_text_raw(nodes@, stop) == acc@ + spec_nodes_inner_text_raw(
                nodes@.skip(i as int),
                stop,
            ),
        decreases n - i,
    {
        proof {
            assert(nodes@.skip(i as int)[0] == nodes@[i as int]);
            assert(nodes@.skip(i as int).skip(1) =~= nodes@.skip(i as int + 1));
        }
        if config.stop_after_br && is_br_start_tag(&nodes[i]) {
            proof {
                assert(spec_nodes_inner_text_raw(nodes@.skip(i as int), stop) =~= Seq::<
                    char,
                >::empty());
                assert(acc@ + Seq::<char>::empty() =~= acc@);
            }
            return acc;
        }
        let piece = node_inner_text(&nodes[i], config);
        acc.append(piece.as_str());
        i = i + 1;
    }
    proof {
        assert(spec_nodes_inner_text_raw(nodes@.skip(n as int), stop) =~= Seq::<char>::empty());
        assert(acc@ + Seq::<char>::empty() =~= acc@);
    }
    acc
}

/// The inner text of one node without any formatting.
pub fn node_inner_text(node: &WtNode, config: &InnerTextConfig) -> (r: String)
    ensures
        r@ == spec_node_inner_text(*node, config.stop_after_br),
    decreases *node, 1int,
{
    match node {
        WtNode::CharacterEntity { character, .. } => {
            let mut s = String::new();
            crate::strutil::push_char(&mut s, *character);
            proof {
                assert(s@ =~= seq![*character]);
            }
            s
        },
        WtNode::Heading { nodes, .. } => nodes_inner_text(nodes, config),
        WtNode::Image { text, .. } => nodes_inner_text(text, config),
        WtNode::Link { text, .. } => nodes_inner_text(text, config),
        WtNode::Preformatted { nodes, .. } => nodes_inner_text(nodes, config),
        WtNode::Text { value, .. } => value.clone(),
        WtNode::Template { name, parameters, .. } => {
            let tname_raw = nodes_inner_text(name, config);
            let tname = crate::strutil::ascii_lower_string(&tname_raw);
            if crate::strutil::str_eq(tname.as_str(), "lang") {
                lang_template_text(parameters, config)
            } else if crate::strutil::str_eq(tname.as_str(), "transliteration")
                || crate::strutil::str_eq(tname.as_str(), "tlit") || crate::strutil::str_eq(
                tname.as_str(),
                "transl",
            ) {
                translit_template_text(parameters, config)
            } else {
                String::new()
            }
        },
        _ => String::new(),
    }
}

fn lang_template_text(params: &Vec<WtParameter>, config: &InnerTextConfig) -> (r: String)
    ensures
        r@ == spec_lang_template_text(params@, config.stop_after_br),
    decreases params@, 4int,
{
    proof {
        reveal_strlit("text");
        assert("text"@ =~= seq!['t', 'e', 'x', 't']);
    }
    match find_named_text(params, "text", config) {
        Some(text) => text,
        None => match nth_unnamed_text(params, 1, config) {
            Some(text) => text,
            None => String::new(),
        },
    }
}

proof fn lemma_nth_unnamed_exists(params: Seq<WtParameter>, k: int, stop_br: bool)
    requires
        0 <= k < spec_count_unnamed(params),
    ensures
        spec_nth_unnamed_text(params, k, stop_br) is Some,
    decreases params.len(),
{
    if params.len() > 0 {
        if params[0].name is None {
            if k > 0 {
                lemma_nth_unnamed_exists(params.skip(1), k - 1, stop_br);
            }
        } else {
            lemma_nth_unnamed_exists(params.skip(1), k, stop_br);
        }
    }
}

fn translit_template_text(params: &Vec<WtParameter>, config: &InnerTextConfig) -> (r: String)
    ensures
        r@ == spec_translit_template_text(params@, config.stop_after_br),
    decreases params@, 4int,
{
    if count_unnamed(params) >= 3 {
        proof {
            lemma_nth_unnamed_exists(params@, 2, config.stop_after_br);
        }
        match nth_unnamed_text(params, 2, config) {
            Some(text) => text,
            None => String::new(),  // dead: a third unnamed parameter exists
        }
    } else {
        match nth_unnamed_text(params, 1, config) {
            Some(text) => text,
            None => String::new(),
        }
    }
}

fn count_unnamed(params: &Vec<WtParameter>) -> (r: usize)
    ensures
        r as int == spec_count_unnamed(params@),
{
    let n = params.len();
    let mut count: usize = 0;
    let mut i: usize = 0;
    proof {
        assert(params@.skip(0) =~= params@);
    }
    while i < n
        invariant
            i <= n,
            n == params@.len(),
            count <= i,
            spec_count_unnamed(params@) == count + spec_count_unnamed(params@.skip(i as int)),
        decreases n - i,
    {
        proof {
            assert(params@.skip(i as int)[0] == params@[i as int]);
            assert(params@.skip(i as int).skip(1) =~= params@.skip(i as int + 1));
        }
        if params[i].name.is_none() {
            count = count + 1;
        }
        i = i + 1;
    }
    proof {
        assert(spec_count_unnamed(params@.skip(n as int)) == 0);
    }
    count
}

fn find_named_text(params: &Vec<WtParameter>, key: &str, config: &InnerTextConfig) -> (r: Option<
    String,
>)
    ensures
        match r {
            Some(text) => Some(text@) == spec_find_named_text(
                params@,
                key@,
                config.stop_after_br,
            ),
            None => spec_find_named_text(params@, key@, config.stop_after_br) is None,
        },
    decreases params@, 3int,
{
    let ghost stop = config.stop_after_br;
    let n = params.len();
    let mut i: usize = 0;
    proof {
        assert(params@.skip(0) =~= params@);
    }
    while i < n
        invariant
            i <= n,
            n == params@.len(),
            stop == config.stop_after_br,
            spec_find_named_text(params@, key@, stop) == spec_find_named_text(
                params@.skip(i as int),
                key@,
                stop,
            ),
        decreases n - i,
    {
        proof {
            assert(params@.skip(i as int)[0] == params@[i as int]);
            assert(params@.skip(i as int).skip(1) =~= params@.skip(i as int + 1));
        }
        match &params[i].name {
            Some(name_nodes) => {
                let name_text = nodes_inner_text(name_nodes, config);
                if crate::strutil::str_eq(name_text.as_str(), key) {
                    let value_text = nodes_inner_text(&params[i].value, config);
                    return Some(value_text);
                }
            },
            None => {},
        }
        i = i + 1;
    }
    proof {
        assert(spec_find_named_text(params@.skip(n as int), key@, stop) is None);
    }
    None
}

fn nth_unnamed_text(params: &Vec<WtParameter>, k: usize, config: &InnerTextConfig) -> (r: Option<
    String,
>)
    ensures
        match r {
            Some(text) => Some(text@) == spec_nth_unnamed_text(
                params@,
                k as int,
                config.stop_after_br,
            ),
            None => spec_nth_unnamed_text(params@, k as int, config.stop_after_br) is None,
        },
    decreases params@, 3int,
{
    let ghost stop = config.stop_after_br;
    let n = params.len();
    let mut i: usize = 0;
    let mut remaining: usize = k;
    proof {
        assert(params@.skip(0) =~= params@);
    }
    while i < n
        invariant
            i <= n,
            n == params@.len(),
            stop == config.stop_after_br,
            spec_nth_unnamed_text(params@, k as int, stop) == spec_nth_unnamed_text(
                params@.skip(i as int),
                remaining as int,
                stop,
            ),
        decreases n - i,
    {
        proof {
            assert(params@.skip(i as int)[0] == params@[i as int]);
            assert(params@.skip(i as int).skip(1) =~= params@.skip(i as int + 1));
        }
        if params[i].name.is_none() {
            if remaining == 0 {
                let value_text = nodes_inner_text(&params[i].value, config);
                return Some(value_text);
            }
            remaining = remaining - 1;
        }
        i = i + 1;
    }
    proof {
        assert(spec_nth_unnamed_text(params@.skip(n as int), remaining as int, stop) is None);
    }
    None
}

} // verus!

verus! {

/// The views of a vector of strings.
pub open spec fn views_of(v: Seq<String>) -> Seq<Seq<char>> {
    v.map_values(|s: String| s@)
}

/// The link targets found in one node, in depth-first discovery order. A
/// link contributes its target and hides its display text; containers are
/// searched through.
pub open spec fn spec_links_in_node(n: WtNode) -> Seq<Seq<char>>
    decreases n, 0int,
{
    match n {
        WtNode::Link { target, .. } => seq![target@],
        WtNode::Category { ordinal, .. } => spec_links_in_nodes(ordinal@),
        WtNode::DefinitionList { items, .. } => spec_links_in_items(items@),
        WtNode::OrderedList { items, .. } => spec_links_in_items(items@),
        WtNode::UnorderedList { items, .. } => spec_links_in_items(items@),
        WtNode::ExternalLink { nodes, .. } => spec_links_in_nodes(nodes@),
        WtNode::Heading { nodes, .. } => spec_links_in_nodes(nodes@),
        WtNode::Preformatted { nodes, .. } => spec_links_in_nodes(nodes@),
        WtNode::Tag { nodes, .. } => spec_links_in_nodes(nodes@),
        WtNode::Parameter { name, default, .. } => (match default {
            Some(d) => spec_links_in_nodes(d@),
            None => Seq::empty(),
        }) + spec_links_in_nodes(name@),
        WtNode::Table { attributes, captions, rows, .. } => spec_links_in_nodes(attributes@)
            + spec_links_in_captions(captions@) + spec_links_in_rows(rows@),
        WtNode::Template { name, parameters, .. } => spec_links_in_nodes(name@)
            + spec_links_in_params(parameters@),
        _ => Seq::empty(),
    }
}

pub open spec fn spec_links_in_nodes(ns: Seq<WtNode>) -> Seq<Seq<char>>
    decreases ns, 1int,
{
    if ns.len() == 0 {
        Seq::empty()
    } else {
        spec_links_in_node(ns[0]) + spec_links_in_nodes(ns.skip(1))
    }
}

pub open spec fn spec_links_in_items(items: Seq<WtListItem>) -> Seq<Seq<char>>
    decreases items, 1int,
{
    if items.len() == 0 {
        Seq::empty()
    } else {
        spec_links_in_nodes(items[0].nodes@) + spec_links_in_items(items.skip(1))
    }
}

pub open spec fn spec_links_in_params(params: Seq<WtParameter>) -> Seq<Seq<char>>
    decreases params, 1int,
{
    if params.len() == 0 {
        Seq::empty()
    } else {
        (match params[0].name {
            Some(n) => spec_links_in_nodes(n@),
            None => Seq::empty(),
        }) + spec_links_in_nodes(params[0].value@) + spec_links_in_params(params.skip(1))
    }
}

pub open spec fn spec_links_in_captions(captions: Seq<WtTableCaption>) -> Seq<Seq<char>>
    decreases captions, 1int,
{
    if captions.len() == 0 {
        Seq::empty()
    } else {
        (match captions[0].attributes {
            Some(a) => spec_links_in_nodes(a@),
            None => Seq::empty(),
        }) + spec_links_in_nodes(captions[0].content@) + spec_links_in_captions(captions.skip(1))
    }
}

pub open spec fn spec_links_in_rows(rows: Seq<WtTableRow>) -> Seq<Seq<char>>
    decreases rows, 1int,
{
    if rows.len() == 0 {
        Seq::empty()
    } else {
        spec_links_in_nodes(rows[0].attributes@) + spec_links_in_cells(rows[0].cells@)
            + spec_links_in_rows(rows.skip(1))
    }
}

pub open spec fn spec_links_in_cells(cells: Seq<WtTableCell>) -> Seq<Seq<char>>
    decreases cells, 1int,
{
    if cells.len() == 0 {
        Seq::empty()
    } else {
        (match cells[0].attributes {
            Some(a) => spec_links_in_nodes(a@),
            None => Seq::empty(),
        }) + spec_links_in_nodes(cells[0].content@) + spec_links_in_cells(cells.skip(1))
    }
}

/// Collects every link target in the nodes, in discovery order.
pub fn get_links_from_nodes(nodes: &Vec<WtNode>) -> (r: Vec<String>)
    ensures
        views_of(r@) == spec_links_in_nodes(nodes@),
{
    let mut out: Vec<String> = Vec::new();
    collect_links_nodes(nodes, &mut out);
    proof {
        assert(views_of(Seq::<String>::empty()) =~= Seq::<Seq<char>>::empty());
        assert(views_of(out@) =~~= spec_links_in_nodes(nodes@));
    }
    out
}

fn collect_links_node(n: &WtNode, out: &mut Vec<String>)
    ensures
        views_of(final(out)@) == views_of(old(out)@) + spec_links_in_node(*n),
    decreases *n, 0int,
{
    match n {
        WtNode::Link { target, .. } => {
            out.push(target.clone());
            proof {
                assert(views_of(final(out)@) =~~= views_of(old(out)@) + spec_links_in_node(*n));
            }
        },
        WtNode::Category { ordinal, .. } => collect_links_nodes(ordinal, out),
        WtNode::DefinitionList { items, .. } => collect_links_items(items, out),
        WtNode::OrderedList { items, .. } => collect_links_items(items, out),
        WtNode::UnorderedList { items, .. } => collect_links_items(items, out),
        WtNode::ExternalLink { nodes, .. } => collect_links_nodes(nodes, out),
        WtNode::Heading { nodes, .. } => collect_links_nodes(nodes, out),
        WtNode::Preformatted { nodes, .. } => collect_links_nodes(nodes, out),
        WtNode::Tag { nodes, .. } => collect_links_nodes(nodes, out),
        WtNode::Parameter { name, default, .. } => {
            match default {
                Some(d) => collect_links_nodes(d, out),
                None => {},
            }
            collect_links_nodes(name, out);
            proof {
                assert(views_of(final(out)@) =~~= views_of(old(out)@) + spec_links_in_node(*n));
            }
        },
        WtNode::Table { attributes, captions, rows, .. } => {
            collect_links_nodes(attributes, out);
            collect_links_captions(captions, out);
            collect_links_rows(rows, out);
            proof {
                assert(views_of(final(out)@) =~~= views_of(old(out)@) + spec_links_in_node(*n));
            }
        },
        WtNode::Template { name, parameters, .. } => {
            collect_links_nodes(name, out);
            collect_links_params(parameters, out);
            proof {
                assert(views_of(final(out)@) =~~= views_of(old(out)@) + spec_links_in_node(*n));
            }
        },
        _ => {
            proof {
                assert(views_of(final(out)@) =~~= views_of(old(out)@) + spec_links_in_node(*n));
            }
        },
    }
}

fn collect_links_nodes(nodes: &Vec<WtNode>, out: &mut Vec<String>)
    ensures
        views_of(final(out)@) == views_of(old(out)@) + spec_links_in_nodes(nodes@),
    decreases nodes@, 1int,
{
    let n = nodes.len();
    let mut i: usize = 0;
    proof {
        assert(nodes@.skip(0) =~= nodes@);
        assert(views_of(out@) + spec_links_in_nodes(nodes@) =~~= views_of(old(out)@)
            + spec_links_in_nodes(nodes@));
    }
    while i < n
        invariant
            i <= n,
            n == nodes@.len(),
            views_of(out@) + spec_links_in_nodes(nodes@.skip(i as int)) =~~= views_of(old(out)@)
                + spec_links_in_nodes(nodes@),
        decreases n - i,
    {
        proof {
            assert(nodes@.skip(i as int)[0] == nodes@[i as int]);
            assert(nodes@.skip(i as int).skip(1) =~= nodes@.skip(i as int + 1));
        }
        collect_links_node(&nodes[i], out);
        i = i + 1;
    }
    proof {
        assert(spec_links_in_nodes(nodes@.skip(n as int)) =~~= Seq::<Seq<char>>::empty());
        assert(views_of(final(out)@) =~~= views_of(old(out)@) + spec_links_in_nodes(nodes@));
    }
}

fn collect_links_items(items: &Vec<WtListItem>, out: &mut Vec<String>)
    ensures
        views_of(final(out)@) == views_of(old(out)@) + spec_links_in_items(items@),
    decreases items@, 1int,
{
    let n = items.len();
    let mut i: usize = 0;
    proof {
        assert(items@.skip(0) =~= items@);
    }
    while i < n
        invariant
            i <= n,
            n == items@.len(),
            views_of(out@) + spec_links_in_items(items@.skip(i as int)) =~~= views_of(old(out)@)
                + spec_links_in_items(items@),
        decreases n - i,
    {
        proof {
            assert(items@.skip(i as int)[0] == items@[i as int]);
            assert(items@.skip(i as int).skip(1) =~= items@.skip(i as int + 1));
        }
        collect_links_nodes(&items[i].nodes, out);
        i = i + 1;
    }
    proof {
        assert(spec_links_in_items(items@.skip(n as int)) =~~= Seq::<Seq<char>>::empty());
        assert(views_of(final(out)@) =~~= views_of(old(out)@) + spec_links_in_items(items@));
    }
}

fn collect_links_params(params: &Vec<WtParameter>, out: &mut Vec<String>)
    ensures
        views_of(final(out)@) == views_of(old(out)@) + spec_links_in_params(params@),
    decreases params@, 1int,
{
    let n = params.len();
    let mut i: usize = 0;
    proof {
        assert(params@.skip(0) =~= params@);
    }
    while i < n
        invariant
            i <= n,
            n == params@.len(),
            views_of(out@) + spec_links_in_params(params@.skip(i as int)) =~~= views_of(
                old(out)@,
            ) + spec_links_in_params(params@),
        decreases n - i,
    {
        proof {
            assert(params@.skip(i as int)[0] == params@[i as int]);
            assert(params@.skip(i as int).skip(1) =~= params@.skip(i as int + 1));
        }
        match &params[i].name {
            Some(nm) => collect_links_nodes(nm, out),
            None => {},
        }
        collect_links_nodes(&params[i].value, out);
        i = i + 1;
    }
    proof {
        assert(spec_links_in_params(params@.skip(n as int)) =~~= Seq::<Seq<char>>::empty());
        assert(views_of(final(out)@) =~~= views_of(old(out)@) + spec_links_in_params(params@));
    }
}

fn collect_links_captions(captions: &Vec<WtTableCaption>, out: &mut Vec<String>)
    ensures
        views_of(final(out)@) == views_of(old(out)@) + spec_links_in_captions(captions@),
    decreases captions@, 1int,
{
    let n = captions.len();
    let mut i: usize = 0;
    proof {
        assert(captions@.skip(0) =~= captions@);
    }
    while i < n
        invariant
            i <= n,
            n == captions@.len(),
            views_of(out@) + spec_links_in_captions(captions@.skip(i as int)) =~~= views_of(
                old(out)@,
            ) + spec_links_in_captions(captions@),
        decreases n - i,
    {
        proof {
            assert(captions@.skip(i as int)[0] == captions@[i as int]);
            assert(captions@.skip(i as int).skip(1) =~= captions@.skip(i as int + 1));
        }
        match &captions[i].attributes {
            Some(a) => collect_links_nodes(a, out),
            None => {},
        }
        collect_links_nodes(&captions[i].content, out);
        i = i + 1;
    }
    proof {
        assert(spec_links_in_captions(captions@.skip(n as int)) =~~= Seq::<Seq<char>>::empty());
        assert(views_of(final(out)@) =~~= views_of(old(out)@) + spec_links_in_captions(
            captions@,
        ));
    }
}

fn collect_links_rows(rows: &Vec<WtTableRow>, out: &mut Vec<String>)
    ensures
        views_of(final(out)@) == views_of(old(out)@) + spec_links_in_rows(rows@),
    decreases rows@, 1int,
{
    let n = rows.len();
    let mut i: usize = 0;
    proof {
        assert(rows@.skip(0) =~= rows@);
    }
    while i < n
        invariant
            i <= n,
            n == rows@.len(),
            views_of(out@) + spec_links_in_rows(rows@.skip(i as int)) =~~= views_of(old(out)@)
                + spec_links_in_rows(rows@),
        decreases n - i,
    {
        proof {
            assert(rows@.skip(i as int)[0] == rows@[i as int]);
            assert(rows@.skip(i as int).skip(1) =~= rows@.skip(i as int + 1));
        }
        collect_links_nodes(&rows[i].attributes, out);
        collect_links_cells(&rows[i].cells, out);
        i = i + 1;
    }
    proof {
        assert(spec_links_in_rows(rows@.skip(n as int)) =~~= Seq::<Seq<char>>::empty());
        assert(views_of(final(out)@) =~~= views_of(old(out)@) + spec_links_in_rows(rows@));
    }
}

fn collect_links_cells(cells: &Vec<WtTableCell>, out: &mut Vec<String>)
    ensures
        views_of(final(out)@) == views_of(old(out)@) + spec_links_in_cells(cells@),
    decreases cells@, 1int,
{
    let n = cells.len();
    let mut i: usize = 0;
    proof {
        assert(cells@.skip(0) =~= cells@);
    }
    while i < n
        invariant
            i <= n,
            n == cells@.len(),
            views_of(out@) + spec_links_in_cells(cells@.skip(i as int)) =~~= views_of(old(out)@)
                + spec_links_in_cells(cells@),
        decreases n - i,
    {
        proof {
            assert(cells@.skip(i as int)[0] == cells@[i as int]);
            assert(cells@.skip(i as int).skip(1) =~= cells@.skip(i as int + 1));
        }
        match &cells[i].attributes {
            Some(a) => collect_links_nodes(a, out),
            None => {},
        }
        collect_links_nodes(&cells[i].content, out);
        i = i + 1;
    }
    proof {
        assert(spec_links_in_cells(cells@.skip(n as int)) =~~= Seq::<Seq<char>>::empty());
        assert(views_of(final(out)@) =~~= views_of(old(out)@) + spec_links_in_cells(cells@));
    }
}

} // verus!

verus! {

/// The value of the last parameter whose name has the given inner text,
/// which is the entry a name-keyed map built from the list would hold.
pub open spec fn spec_param_lookup(params: Seq<WtParameter>, key: Seq<char>) -> Option<
    Seq<WtNode>,
>
    decreases params.len(),
{
    if params.len() == 0 {
        None
    } else {
        let p = params.last();
        if p.name is Some && spec_nodes_inner_text(p.name->Some_0@, false) == key {
            Some(p.value@)
        } else {
            spec_param_lookup(params.drop_last(), key)
        }
    }
}

/// Finds the parameter a name-keyed map would hold for the given key.
pub fn param_lookup<'a>(params: &'a Vec<WtParameter>, key: &str) -> (r: Option<&'a Vec<WtNode>>)
    ensures
        match r {
            Some(v) => spec_param_lookup(params@, key@) == Some(v@),
            None => spec_param_lookup(params@, key@) is None,
        },
{
    let default_config = InnerTextConfig { stop_after_br: false };
    let n = params.len();
    let mut i: usize = n;
    proof {
        assert(params@.subrange(0, n as int) =~= params@);
    }
    while i > 0
        invariant
            i <= n,
            n == params@.len(),
            !default_config.stop_after_br,
            spec_param_lookup(params@, key@) == spec_param_lookup(
                params@.subrange(0, i as int),
                key@,
            ),
        decreases i,
    {
        i = i - 1;
        proof {
            assert(params@.subrange(0, i as int + 1).last() == params@[i as int]);
            assert(params@.subrange(0, i as int + 1).drop_last() =~= params@.subrange(
                0,
                i as int,
            ));
        }
        let p = &params[i];
        proof {
            assert(*p == params@.subrange(0, i as int + 1).last());
        }
        match &p.name {
            Some(name_nodes) => {
                let name_text = nodes_inner_text(name_nodes, &default_config);
                if crate::strutil::str_eq(name_text.as_str(), key) {
                    proof {
                        assert(spec_param_lookup(params@.subrange(0, i as int + 1), key@)
                            == Some(params@[i as int].value@));
                    }
                    return Some(&p.value);
                }
            },
            None => {},
        }
    }
    proof {
        assert(params@.subrange(0, 0) =~= Seq::<WtParameter>::empty());
    }
    None
}

} // verus!

verus! {

/// The parser configuration for the English Wikipedia: its category and file
/// namespaces, extension tags, magic words, protocols and redirect words.
pub fn pwt_configuration() -> pwt::Configuration {
    let category_namespaces: Vec<&str> = vec!["category"];
    let extension_tags: Vec<&str> = vec![
        "categorytree",
        "ce",
        "charinsert",
        "chem",
        "gallery",
        "graph",
        "hiero",
        "imagemap",
        "indicator",
        "inputbox",
        "langconvert",
        "mapframe",
        "maplink",
        "math",
        "nowiki",
        "poem",
        "pre",
        "ref",
        "references",
        "score",
        "section",
        "source",
        "syntaxhighlight",
        "templatedata",
        "templatestyles",
        "timeline",
    ];
    let file_namespaces: Vec<&str> = vec!["file", "image"];
    let link_trail = "abcdefghijklmnopqrstuvwxyz";
    let magic_words: Vec<&str> = vec![
        "disambig",
        "expected_unconnected_page",
        "expectunusedcategory",
        "forcetoc",
        "hiddencat",
        "index",
        "newsectionlink",
        "nocc",
        "nocontentconvert",
        "noeditsection",
        "nogallery",
        "noglobal",
        "noindex",
        "nonewsectionlink",
        "notc",
        "notitleconvert",
        "notoc",
        "staticredirect",
        "toc",
    ];
    let protocols: Vec<&str> = vec![
        "//",
        "bitcoin:",
        "ftp://",
        "ftps://",
        "geo:",
        "git://",
        "gopher://",
        "http://",
        "https://",
        "irc://",
        "ircs://",
        "magnet:",
        "mailto:",
        "mms://",
        "news:",
        "nntp://",
        "redis://",
        "sftp://",
        "sip:",
        "sips:",
        "sms:",
        "ssh://",
        "svn://",
        "tel:",
        "telnet://",
        "urn:",
        "worldwind://",
        "xmpp:",
    ];
    let redirect_magic_words: Vec<&str> = vec!["redirect"];
    configuration_new(
        &category_namespaces,
        &extension_tags,
        &file_namespaces,
        link_trail,
        &magic_words,
        &protocols,
        &redirect_magic_words,
    )
}

} // verus!
