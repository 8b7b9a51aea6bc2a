//! The data of a flow graph: nodes, their connection handles, edges, and the
//! change records that the canvas emits.
//!
//! Geometry (positions, measured sizes, curvature, stroke width) is held as the
//! bit patterns of IEEE-754 single-precision values. The graph logic stores and
//! copies these values but never computes with them; the rendering layer turns
//! them back into floating-point numbers.
use vstd::prelude::*;

verus! {

/// Which end of a connection a handle serves.
#[derive(Clone, Copy, Debug, PartialEq, Eq, Structural)]
pub enum HandleType {
    Source,
    Target,
}

/// The side of a node on which a handle sits.
#[derive(Clone, Copy, Debug, PartialEq, Eq, Structural)]
pub enum HandlePosition {
    Top,
    Right,
    Bottom,
    Left,
}

/// A point in flow coordinates; `x` and `y` are `f32` bit patterns.
#[derive(Clone, Copy, Debug, PartialEq, Eq, Structural)]
pub struct Position {
    pub x: u32,
    pub y: u32,
}

/// The shape in which an edge is drawn; the parameters are `f32` bit patterns.
#[derive(Clone, Copy, Debug, PartialEq, Eq, Structural)]
pub enum EdgeType {
    Bezier { curvature: u32 },
    Straight,
    SmoothStep { border_radius: u32, offset: u32 },
}

/// The bit pattern of `0.25f32`, the curvature of a default bezier edge.
pub const DEFAULT_CURVATURE: u32 = 0x3e80_0000u32;

/// A connection point declared on a node.
#[derive(Debug)]
pub struct HandleDef {
    pub id: Option<String>,
    pub handle_type: HandleType,
    pub position: HandlePosition,
    pub is_connectable: bool,
}

/// A node of the graph.
#[derive(Debug)]
pub struct FlowNode {
    pub id: String,
    pub label: String,
    pub node_type: String,
    pub position: Position,
    pub measured_width: Option<u32>,
    pub measured_height: Option<u32>,
    pub selected: bool,
    pub selectable: bool,
    pub dragging: bool,
    pub hidden: bool,
    pub handles: Vec<HandleDef>,
}

/// A node as a mathematical value: its handles as a sequence.
pub struct NodeView {
    pub id: String,
    pub label: String,
    pub node_type: String,
    pub position: Position,
    pub measured_width: Option<u32>,
    pub measured_height: Option<u32>,
    pub selected: bool,
    pub selectable: bool,
    pub dragging: bool,
    pub hidden: bool,
    pub handles: Seq<HandleDef>,
}

impl View for FlowNode {
    type V = NodeView;

    open spec fn view(&self) -> NodeView {
        NodeView {
            id: self.id,
            label: self.label,
            node_type: self.node_type,
            position: self.position,
            measured_width: self.measured_width,
            measured_height: self.measured_height,
            selected: self.selected,
            selectable: self.selectable,
            dragging: self.dragging,
            hidden: self.hidden,
            handles: self.handles@,
        }
    }
}

/// An edge from one node to another.
#[derive(Debug)]
pub struct FlowEdge {
    pub id: String,
    pub source: String,
    pub target: String,
    pub source_handle: Option<String>,
    pub target_handle: Option<String>,
    pub edge_type: EdgeType,
    pub selected: bool,
    pub selectable: bool,
    pub hidden: bool,
    pub color: Option<u32>,
    pub stroke_width: Option<u32>,
}

/// A connection the user completed by dragging from one handle to another.
#[derive(Debug)]
pub struct Connection {
    pub source: String,
    pub target: String,
    pub source_handle: Option<String>,
    pub target_handle: Option<String>,
}

/// A change to one node, as emitted by the canvas.
#[derive(Debug)]
pub enum NodeChange {
    Position { id: String, position: Position, dragging: bool },
    Dimensions { id: String, width: u32, height: u32 },
    Select { id: String, selected: bool },
    Remove { id: String },
}

/// A change to one edge, as emitted by the canvas.
#[derive(Debug)]
pub enum EdgeChange {
    Select { id: String, selected: bool },
    Remove { id: String },
}

impl NodeChange {
    /// The id of the node that the change names.
    pub open spec fn node_id(self) -> Seq<char> {
        match self {
            NodeChange::Position { id, .. } => id@,
            NodeChange::Dimensions { id, .. } => id@,
            NodeChange::Select { id, .. } => id@,
            NodeChange::Remove { id } => id@,
        }
    }
}

/// An optional string as an optional sequence of characters.
pub open spec fn opt_chars(s: Option<String>) -> Option<Seq<char>> {
    match s {
        Some(x) => Some(x@),
        None => None,
    }
}

/// A copy of an optional string.
pub(crate) fn clone_opt_string(s: &Option<String>) -> (r: Option<String>)
    ensures
        r == *s,
{
    match s {
        Some(x) => Some(x.clone()),
        None => None,
    }
}

/// Whether two optional strings are equal.
pub(crate) fn opt_string_eq(a: &Option<String>, b: &Option<String>) -> (r: bool)
    ensures
        r == (opt_chars(*a) == opt_chars(*b)),
{
    match (a, b) {
        (Some(x), Some(y)) => *x == *y,
        (None, None) => true,
        _ => false,
    }
}

impl Clone for HandleDef {
    fn clone(&self) -> (r: Self)
        ensures
            r == *self,
    {
        HandleDef {
            id: clone_opt_string(&self.id),
            handle_type: self.handle_type,
            position: self.position,
            is_connectable: self.is_connectable,
        }
    }
}

impl Clone for FlowNode {
    fn clone(&self) -> (r: Self)
        ensures
            r@ == self@,
    {
        let handles = self.handles.clone();
        assert(handles@ =~= self.handles@);
        FlowNode {
            id: self.id.clone(),
            label: self.label.clone(),
            node_type: self.node_type.clone(),
            position: self.position,
            measured_width: self.measured_width,
            measured_height: self.measured_height,
            selected: self.selected,
            selectable: self.selectable,
            dragging: self.dragging,
            hidden: self.hidden,
            handles,
        }
    }
}

impl Clone for FlowEdge {
    fn clone(&self) -> (r: Self)
        ensures
            r == *self,
    {
        FlowEdge {
            id: self.id.clone(),
            source: self.source.clone(),
            target: self.target.clone(),
            source_handle: clone_opt_string(&self.source_handle),
            target_handle: clone_opt_string(&self.target_handle),
            edge_type: self.edge_type,
            selected: self.selected,
            selectable: self.selectable,
            hidden: self.hidden,
            color: self.color,
            stroke_width: self.stroke_width,
        }
    }
}

impl HandleDef {
    /// A connectable source handle without an id.
    pub fn source(position: HandlePosition) -> (r: Self)
        ensures
            r == (HandleDef {
                id: None,
                handle_type: HandleType::Source,
                position,
                is_connectable: true,
            }),
    {
        HandleDef { id: None, handle_type: HandleType::Source, position, is_connectable: true }
    }

    /// A connectable target handle without an id.
    pub fn target(position: HandlePosition) -> (r: Self)
        ensures
            r == (HandleDef {
                id: None,
                handle_type: HandleType::Target,
                position,
                is_connectable: true,
            }),
    {
        HandleDef { id: None, handle_type: HandleType::Target, position, is_connectable: true }
    }
}

impl FlowNode {
    /// A visible, selectable node at `position`, with no label, type, size or handles.
    pub fn new(id: String, position: Position) -> (r: Self)
        ensures
            r.id == id,
            r.label@ == Seq::<char>::empty(),
            r.node_type@ == Seq::<char>::empty(),
            r.position == position,
            r.measured_width is None,
            r.measured_height is None,
            !r.selected,
            r.selectable,
            !r.dragging,
            !r.hidden,
            r.handles@ == Seq::<HandleDef>::empty(),
    {
        FlowNode {
            id,
            label: String::new(),
            node_type: String::new(),
            position,
            measured_width: None,
            measured_height: None,
            selected: false,
            selectable: true,
            dragging: false,
            hidden: false,
            handles: Vec::new(),
        }
    }
}

/// The edge that `FlowEdge::new` builds.
pub open spec fn new_edge(id: String, source: String, target: String) -> FlowEdge {
    FlowEdge {
        id,
        source,
        target,
        source_handle: None,
        target_handle: None,
        edge_type: EdgeType::Bezier { curvature: DEFAULT_CURVATURE },
        selected: false,
        selectable: true,
        hidden: false,
        color: None,
        stroke_width: None,
    }
}

impl FlowEdge {
    /// A visible, selectable default bezier edge from `source` to `target`,
    /// attached to no particular handle.
    pub fn new(id: String, source: String, target: String) -> (r: Self)
        ensures
            r == new_edge(id, source, target),
    {
        FlowEdge {
            id,
            source,
            target,
            source_handle: None,
            target_handle: None,
            edge_type: EdgeType::Bezier { curvature: DEFAULT_CURVATURE },
            selected: false,
            selectable: true,
            hidden: false,
            color: None,
            stroke_width: None,
        }
    }

    /// The colour an edge is drawn in: `selected_color` while it is selected,
    /// else its own colour, else `default_color`.
    pub fn paint_color(&self, default_color: u32, selected_color: u32) -> (r: u32)
        ensures
            r == (if self.selected {
                selected_color
            } else {
                match self.color {
                    Some(c) => c,
                    None => default_color,
                }
            }),
    {
        if self.selected {
            selected_color
        } else if let Some(c) = self.color {
            c
        } else {
            default_color
        }
    }
}

} // verus!
