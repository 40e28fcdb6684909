//! Reading a drawing: its frame and its dynamic shapes.

use vstd::prelude::*;
use vstd::string::StrSliceExecFns;
use crate::path::{extract, path_attempts, readable, PathSegment};
use crate::table::{keys_with, values_with, Table};

verus! {

/// Why a drawing could not be loaded.
#[derive(Clone, Copy, Debug, PartialEq, Eq, Structural)]
pub enum LoadError {
    /// There is no root element with a frame that can be read.
    MissingViewBox,
    /// A dynamic shape has no drawing instructions.
    MissingPathData,
}

/// The frame in which the paths of a drawing are written: origin, width and
/// height, as bit patterns of double precision numbers.
#[derive(Clone, Copy, Debug, PartialEq, Eq, Structural)]
pub struct ViewBox {
    pub x: u64,
    pub y: u64,
    pub w: u64,
    pub h: u64,
}

/// Whether a bit pattern is not that of a number below zero: its sign bit is
/// clear, or it is a negative zero, or it is no number at all.
pub open spec fn not_negative(bits: u64) -> bool {
    bits <= 0x8000_0000_0000_0000 || bits > 0xFFF0_0000_0000_0000
}

impl ViewBox {
    /// Width and height are not negative.
    pub open spec fn wf(&self) -> bool {
        not_negative(self.w) && not_negative(self.h)
    }

    /// The frame of no drawing: all four numbers are zero.
    pub fn empty() -> (frame: ViewBox)
        ensures
            frame == (ViewBox { x: 0, y: 0, w: 0, h: 0 }),
            frame.wf(),
    {
        ViewBox { x: 0, y: 0, w: 0, h: 0 }
    }
}

/// What the loader reads of one node of a document: the local name of its tag
/// (empty for a node that is no element) and three of its attributes.
#[derive(Debug)]
pub struct Node {
    pub tag: String,
    pub id: Option<String>,
    pub view_box: Option<String>,
    pub path_data: Option<String>,
}

/// A node as plain text.
pub struct NodeView {
    pub tag: Seq<char>,
    pub id: Option<Seq<char>>,
    pub view_box: Option<Seq<char>>,
    pub path_data: Option<Seq<char>>,
}

/// The text of an attribute that may be absent.
pub open spec fn text_of(attribute: Option<String>) -> Option<Seq<char>> {
    match attribute {
        Some(value) => Some(value@),
        None => None,
    }
}

impl View for Node {
    type V = NodeView;

    open spec fn view(&self) -> NodeView {
        NodeView {
            tag: self.tag@,
            id: text_of(self.id),
            view_box: text_of(self.view_box),
            path_data: text_of(self.path_data),
        }
    }
}

/// The nodes as plain text, in their order.
pub open spec fn node_views(nodes: Seq<Node>) -> Seq<NodeView> {
    Seq::new(nodes.len(), |i: int| nodes[i]@)
}

#[verifier::external_type_specification]
#[verifier::external_body]
pub struct ExDocumentError(roxmltree::Error);

#[verifier::external_type_specification]
#[verifier::external_body]
pub struct ExViewBoxError(svgtypes::ViewBoxError);

/// The nodes of a document in document order, the root node first; `None`
/// for text that is no document.
pub uninterp spec fn document_nodes(text: Seq<char>) -> Option<Seq<NodeView>>;

/// The frame that an attribute value describes; `None` where it describes
/// none.
pub uninterp spec fn view_box_value(text: Seq<char>) -> Option<ViewBox>;

/// Parses `text` with `roxmltree::Document::parse` and hands out, for each
/// node that `descendants` yields, the local name of `tag_name` and the
/// values that `attribute` finds for `id`, `viewBox` and `d`. The contract
/// only gives that sequence its name, and says that the name has no value
/// exactly where parsing fails.
#[verifier::external_body]
fn read_nodes(text: &str) -> (nodes: Result<Vec<Node>, roxmltree::Error>)
    ensures
        match nodes {
            Ok(found) => document_nodes(text@) == Some(node_views(found@)),
            Err(_) => document_nodes(text@) is None,
        },
{
    let doc = roxmltree::Document::parse(text)?;
    Ok(doc.descendants().map(|n| Node {
        tag: n.tag_name().name().to_owned(),
        id: n.attribute("id").map(|v| v.to_owned()),
        view_box: n.attribute("viewBox").map(|v| v.to_owned()),
        path_data: n.attribute("d").map(|v| v.to_owned()),
    }).collect())
}

/// Parses `text` with the `FromStr` impl of `svgtypes::ViewBox` and hands out
/// its four numbers as bit patterns. The contract gives the result its name,
/// which has no value exactly where parsing fails, and says that width and
/// height of a frame that was read are not negative: the parser refuses one
/// whose width or height is at most zero.
#[verifier::external_body]
fn parse_view_box(text: &str) -> (parsed: Result<ViewBox, svgtypes::ViewBoxError>)
    ensures
        match parsed {
            Ok(frame) => view_box_value(text@) == Some(frame) && frame.wf(),
            Err(_) => view_box_value(text@) is None,
        },
{
    let frame: svgtypes::ViewBox = std::str::FromStr::from_str(text)?;
    Ok(ViewBox { x: frame.x.to_bits(), y: frame.y.to_bits(), w: frame.w.to_bits(), h: frame.h.to_bits() })
}

/// Whether `text` begins with `prefix`.
pub fn has_prefix(text: &str, prefix: &str) -> (found: bool)
    ensures
        found == prefix@.is_prefix_of(text@),
{
    let n = prefix.unicode_len();
    if text.unicode_len() < n {
        return false;
    }
    let mut i: usize = 0;
    while i < n
        invariant
            i <= n,
            n == prefix@.len(),
            n <= text@.len(),
            forall|j: int| 0 <= j < i ==> text@[j] == prefix@[j],
        decreases n - i,
    {
        if text.get_char(i) != prefix.get_char(i) {
            proof {
                assert(text@.subrange(0, n as int)[i as int] == text@[i as int]);
            }
            return false;
        }
        i = i + 1;
    }
    proof {
        assert(prefix@ =~= text@.subrange(0, n as int));
    }
    true
}

/// The first of the nodes with the given tag.
pub open spec fn first_tagged(nodes: Seq<NodeView>, tag: Seq<char>) -> Option<NodeView>
    decreases nodes.len(),
{
    if nodes.len() == 0 {
        None
    } else if nodes[0].tag == tag {
        Some(nodes[0])
    } else {
        first_tagged(nodes.drop_first(), tag)
    }
}

/// The frame of a document: what the `viewBox` attribute of its first `svg`
/// element describes.
pub open spec fn document_view_box(nodes: Seq<NodeView>) -> Option<ViewBox> {
    match first_tagged(nodes, "svg"@) {
        Some(root) => match root.view_box {
            Some(text) => view_box_value(text),
            None => None,
        },
        None => None,
    }
}

/// Reads the frame of a document from its nodes.
pub fn read_view_box(nodes: &Vec<Node>) -> (frame: Option<ViewBox>)
    ensures
        frame == document_view_box(node_views(nodes@)),
        frame matches Some(f) ==> f.wf(),
{
    let svg: String = "svg".to_owned();
    let ghost views = node_views(nodes@);
    let mut i: usize = 0;
    proof {
        assert(views.skip(0) =~= views);
    }
    while i < nodes.len()
        invariant
            i <= nodes.len(),
            svg@ == "svg"@,
            views == node_views(nodes@),
            first_tagged(views, "svg"@) == first_tagged(views.skip(i as int), "svg"@),
        decreases nodes.len() - i,
    {
        proof {
            assert(views.skip(i as int)[0] == nodes@[i as int]@);
            assert(views.skip(i as int).drop_first() =~= views.skip(i + 1));
        }
        if nodes[i].tag == svg {
            return match &nodes[i].view_box {
                Some(text) => match parse_view_box(text.as_str()) {
                    Ok(frame) => Some(frame),
                    Err(_) => None,
                },
                None => None,
            };
        }
        i = i + 1;
    }
    proof {
        assert(views.skip(i as int).len() == 0);
    }
    None
}

/// Whether a node is a dynamic shape: a `path` element whose identifier
/// begins with `dynamic`.
pub open spec fn is_dynamic_shape(node: NodeView) -> bool {
    &&& node.tag == "path"@
    &&& node.id matches Some(id) && "dynamic"@.is_prefix_of(id)
}

/// Identifiers and instructions of the shapes of a drawing.
pub struct Shapes {
    pub ids: Seq<Seq<char>>,
    pub paths: Seq<Seq<PathSegment>>,
}

/// The dynamic shapes among the nodes, in the order in which their
/// identifiers first come; a later shape with the identifier of an earlier
/// one takes its place. A dynamic shape without instructions is an error.
pub open spec fn document_shapes(nodes: Seq<NodeView>) -> Result<Shapes, LoadError>
    decreases nodes.len(),
{
    if nodes.len() == 0 {
        Ok(Shapes { ids: Seq::empty(), paths: Seq::empty() })
    } else {
        match document_shapes(nodes.drop_last()) {
            Err(e) => Err(e),
            Ok(shapes) => {
                let node = nodes.last();
                if !is_dynamic_shape(node) {
                    Ok(shapes)
                } else {
                    match node.path_data {
                        None => Err(LoadError::MissingPathData),
                        Some(data) => Ok(
                            Shapes {
                                ids: keys_with(shapes.ids, node.id->0),
                                paths: values_with(
                                    shapes.ids,
                                    shapes.paths,
                                    node.id->0,
                                    readable(path_attempts(data)),
                                ),
                            },
                        ),
                    }
                }
            },
        }
    }
}

/// The instructions of the shapes in a table, each as a sequence.
pub open spec fn paths_of(table: Table<Vec<PathSegment>>) -> Seq<Seq<PathSegment>> {
    Seq::new(table.values().len(), |i: int| table.values()[i]@)
}

/// Collects the dynamic shapes of a document from its nodes.
pub fn collect_shapes(nodes: &Vec<Node>) -> (found: Result<Table<Vec<PathSegment>>, LoadError>)
    ensures
        match found {
            Ok(table) => {
                &&& table.wf()
                &&& document_shapes(node_views(nodes@)) == Ok::<Shapes, LoadError>(
                    Shapes { ids: table.keys(), paths: paths_of(table) },
                )
            },
            Err(e) => document_shapes(node_views(nodes@)) == Err::<Shapes, LoadError>(e),
        },
{
    let path: String = "path".to_owned();
    let ghost views = node_views(nodes@);
    let mut table: Table<Vec<PathSegment>> = Table::new();
    let mut i: usize = 0;
    proof {
        assert(paths_of(table) =~= Seq::<Seq<PathSegment>>::empty());
        assert(views.take(0).len() == 0);
    }
    while i < nodes.len()
        invariant
            i <= nodes.len(),
            path@ == "path"@,
            views == node_views(nodes@),
            table.wf(),
            document_shapes(views.take(i as int)) == Ok::<Shapes, LoadError>(
                Shapes { ids: table.keys(), paths: paths_of(table) },
            ),
        decreases nodes.len() - i,
    {
        let node = &nodes[i];
        proof {
            assert(views.take(i + 1).drop_last() =~= views.take(i as int));
            assert(views.take(i + 1).last() == node@);
        }
        let dynamic = node.tag == path && match &node.id {
            Some(id) => has_prefix(id.as_str(), "dynamic"),
            None => false,
        };
        if dynamic {
            match (&node.id, &node.path_data) {
                (Some(id), Some(data)) => {
                    let segments = extract(data.as_str());
                    let ghost before = table;
                    table.insert(id.clone(), segments);
                    proof {
                        assert(paths_of(table) =~= values_with(before.keys(), paths_of(before), id@, segments@));
                    }
                },
                _ => {
                    proof {
                        assert(node@.path_data is None);
                        if i + 1 < nodes.len() {
                            lemma_error_stays(views, i + 1, LoadError::MissingPathData);
                        } else {
                            assert(views.take(i + 1) =~= views);
                        }
                    }
                    return Err(LoadError::MissingPathData);
                },
            }
        }
        i = i + 1;
    }
    proof {
        assert(views.take(i as int) =~= views);
    }
    Ok(table)
}

/// An error among the first `n` nodes is the error of the whole document.
pub proof fn lemma_error_stays(nodes: Seq<NodeView>, n: int, e: LoadError)
    requires
        0 <= n <= nodes.len(),
        document_shapes(nodes.take(n)) == Err::<Shapes, LoadError>(e),
    ensures
        document_shapes(nodes) == Err::<Shapes, LoadError>(e),
    decreases nodes.len() - n,
{
    if n < nodes.len() {
        assert(nodes.take(n + 1).drop_last() =~= nodes.take(n));
        lemma_error_stays(nodes, n + 1, e);
    } else {
        assert(nodes.take(n) =~= nodes);
    }
}

/// Whether a document lacks a frame: it is no document, or has no `svg`
/// element, or the first of them has no `viewBox` attribute or one that
/// describes no frame.
pub open spec fn frame_is_missing(nodes: Option<Seq<NodeView>>) -> bool {
    match nodes {
        None => true,
        Some(nodes) => match first_tagged(nodes, "svg"@) {
            None => true,
            Some(root) => match root.view_box {
                None => true,
                Some(text) => view_box_value(text) is None,
            },
        },
    }
}

/// What loading a document gives: its frame and its shapes, or the reason
/// why there are none. Text that is no document has no frame.
pub open spec fn loaded(nodes: Option<Seq<NodeView>>) -> Result<(ViewBox, Shapes), LoadError> {
    match nodes {
        None => Err(LoadError::MissingViewBox),
        Some(nodes) => match document_view_box(nodes) {
            None => Err(LoadError::MissingViewBox),
            Some(frame) => match document_shapes(nodes) {
                Err(e) => Err(e),
                Ok(shapes) => Ok((frame, shapes)),
            },
        },
    }
}

/// Reads frame and shapes from the nodes of a document.
pub fn read_drawing(nodes: &Vec<Node>) -> (drawing: Result<(ViewBox, Table<Vec<PathSegment>>), LoadError>)
    ensures
        match drawing {
            Ok((frame, table)) => {
                &&& frame.wf()
                &&& table.wf()
                &&& loaded(Some(node_views(nodes@))) == Ok::<(ViewBox, Shapes), LoadError>(
                    (frame, Shapes { ids: table.keys(), paths: paths_of(table) }),
                )
            },
            Err(e) => loaded(Some(node_views(nodes@))) == Err::<(ViewBox, Shapes), LoadError>(e),
        },
{
    match read_view_box(nodes) {
        None => Err(LoadError::MissingViewBox),
        Some(frame) => match collect_shapes(nodes) {
            Err(e) => Err(e),
            Ok(table) => Ok((frame, table)),
        },
    }
}

/// Parses a document and reads frame and shapes from it.
pub fn load_drawing(text: &str) -> (drawing: Result<(ViewBox, Table<Vec<PathSegment>>), LoadError>)
    ensures
        match drawing {
            Ok((frame, table)) => {
                &&& frame.wf()
                &&& table.wf()
                &&& loaded(document_nodes(text@)) == Ok::<(ViewBox, Shapes), LoadError>(
                    (frame, Shapes { ids: table.keys(), paths: paths_of(table) }),
                )
            },
            Err(e) => loaded(document_nodes(text@)) == Err::<(ViewBox, Shapes), LoadError>(e),
        },
{
    match read_nodes(text) {
        Err(_) => Err(LoadError::MissingViewBox),
        Ok(nodes) => read_drawing(&nodes),
    }
}

} // verus!
