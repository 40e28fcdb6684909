//! The drawer: the shapes of a drawing, their states and styles, and the
//! decisions of hit testing and rendering.

use std::collections::HashMap;
use vstd::prelude::*;
use crate::document::{
    document_nodes, frame_is_missing, load_drawing, loaded, node_views, paths_of, read_drawing, LoadError, Node,
    NodeView, Shapes, ViewBox,
};
use crate::path::{
    is_resolution, lemma_resolution_is_unique, resolve_absolute, single_valued, steps, Command,
    PathSegment,
};
use crate::number::{truncate, whole_part};
use crate::table::Table;

verus! {

broadcast use vstd::std_specs::hash::group_hash_axioms;

/// The fill style of the shape under the pointer.
pub open spec fn hover_fill_style() -> Seq<char> {
    "rgba(107,148,179,0.2)"@
}

/// The fill style of a shape for which no other is known.
pub open spec fn default_fill_style() -> Seq<char> {
    "rgba(255,255,255,0.2)"@
}

/// The two fixed styles differ.
pub proof fn lemma_fixed_styles_differ()
    ensures
        hover_fill_style() != default_fill_style(),
{
    reveal_strlit("rgba(107,148,179,0.2)");
    reveal_strlit("rgba(255,255,255,0.2)");
    assert(hover_fill_style()[5] == '1');
    assert(default_fill_style()[5] == '2');
}

/// A point of the rendering surface, its coordinates as bit patterns.
#[derive(Clone, Copy, Debug, PartialEq, Eq, Structural)]
pub struct Point {
    pub x: u64,
    pub y: u64,
}

/// The fill style of a shape: the hover style under the pointer; else the
/// style of the shape's state, and the default style where the shape has no
/// state or the state has no style.
pub open spec fn resolved_style(
    states: Map<Seq<char>, i32>,
    styles: Map<i32, Seq<char>>,
    id: Seq<char>,
    hovered: bool,
) -> Seq<char> {
    if hovered {
        hover_fill_style()
    } else if states.contains_key(id) && styles.contains_key(states[id]) {
        styles[states[id]]
    } else {
        default_fill_style()
    }
}

/// The four cases of a shape's fill style: under the pointer it is the hover
/// style whatever states and styles say; else a shape without a state has
/// the default style, a shape whose state has no style has the default style,
/// and a shape whose state has a style has that style.
pub proof fn lemma_style_fallback(states: Map<Seq<char>, i32>, styles: Map<i32, Seq<char>>, id: Seq<char>)
    ensures
        resolved_style(states, styles, id, true) == hover_fill_style(),
        !states.contains_key(id) ==> resolved_style(states, styles, id, false) == default_fill_style(),
        states.contains_key(id) && !styles.contains_key(states[id]) ==> resolved_style(states, styles, id, false)
            == default_fill_style(),
        states.contains_key(id) && styles.contains_key(states[id]) ==> resolved_style(states, styles, id, false)
            == styles[states[id]],
{
}

/// The answers of the containment test for `count` shapes: an answer that
/// was not given counts as "not contained".
pub open spec fn answers(contained: Seq<bool>, count: int) -> Seq<bool> {
    Seq::new(count as nat, |i: int| i < contained.len() && contained[i])
}

/// The first place that holds `true`, if there is one.
pub open spec fn first_true(flags: Seq<bool>) -> Option<int>
    decreases flags.len(),
{
    if flags.len() == 0 {
        None
    } else {
        match first_true(flags.drop_last()) {
            Some(i) => Some(i),
            None => if flags.last() {
                Some(flags.len() - 1)
            } else {
                None
            },
        }
    }
}

/// `first_true` names a place that holds `true` and has only `false` before
/// it, and names none only where every place holds `false`.
pub proof fn lemma_first_true(flags: Seq<bool>)
    ensures
        match first_true(flags) {
            Some(i) => 0 <= i < flags.len() && flags[i] && forall|j: int| 0 <= j < i ==> !flags[j],
            None => forall|j: int| 0 <= j < flags.len() ==> !flags[j],
        },
    decreases flags.len(),
{
    if flags.len() > 0 {
        lemma_first_true(flags.drop_last());
        assert forall|j: int| 0 <= j < flags.len() - 1 implies flags[j] == flags.drop_last()[j] by {}
    }
}

/// A place that holds `true` after places that all hold `false` is the one
/// that `first_true` names.
pub proof fn lemma_first_true_found(flags: Seq<bool>, i: int)
    requires
        0 <= i < flags.len(),
        flags[i],
        forall|j: int| 0 <= j < i ==> !flags[j],
    ensures
        first_true(flags) == Some(i),
{
    lemma_first_true(flags);
}

/// The drawer of the interactive part of a drawing.
pub struct MapDrawerInterface {
    view_box: ViewBox,
    dynamic_shapes: Table<Vec<PathSegment>>,
    shape_states: Table<i32>,
    state_fill_styles: HashMap<i32, String>,
}

impl MapDrawerInterface {
    /// The frame of the drawing.
    pub closed spec fn view_box(&self) -> ViewBox {
        self.view_box
    }

    /// The identifiers of the shapes, in the order in which they are visited.
    pub closed spec fn shape_ids(&self) -> Seq<Seq<char>> {
        self.dynamic_shapes.keys()
    }

    /// The instructions of each shape, in the place of its identifier.
    pub closed spec fn shape_paths(&self) -> Seq<Seq<PathSegment>> {
        paths_of(self.dynamic_shapes)
    }

    /// The state of each shape that has one.
    pub closed spec fn states(&self) -> Map<Seq<char>, i32> {
        self.shape_states@
    }

    /// The fill style of each state that has one.
    pub closed spec fn styles(&self) -> Map<i32, Seq<char>> {
        Map::new(
            |state: i32| self.state_fill_styles@.contains_key(state),
            |state: i32| self.state_fill_styles@[state]@,
        )
    }

    /// No shape stands twice, each has its instructions, and width and height
    /// of the frame are not negative.
    pub closed spec fn wf(&self) -> bool {
        &&& self.view_box.wf()
        &&& self.dynamic_shapes.wf()
        &&& self.shape_states.wf()
    }

    /// In a well-formed drawer the identifiers differ from each other and
    /// there are as many paths as identifiers.
    pub proof fn lemma_wf(&self)
        requires
            self.wf(),
        ensures
            self.shape_ids().no_duplicates(),
            self.shape_ids().len() == self.shape_paths().len(),
            self.view_box().wf(),
    {
    }

    /// A drawer without shapes, states or styles, its frame all zero.
    pub fn new() -> (drawer: Self)
        ensures
            drawer.wf(),
            drawer.view_box() == (ViewBox { x: 0, y: 0, w: 0, h: 0 }),
            drawer.shape_ids() == Seq::<Seq<char>>::empty(),
            drawer.shape_paths() == Seq::<Seq<PathSegment>>::empty(),
            drawer.states() == Map::<Seq<char>, i32>::empty(),
            drawer.styles() == Map::<i32, Seq<char>>::empty(),
    {
        let drawer = MapDrawerInterface {
            view_box: ViewBox::empty(),
            dynamic_shapes: Table::new(),
            shape_states: Table::new(),
            state_fill_styles: HashMap::new(),
        };
        proof {
            assert(drawer.shape_paths() =~= Seq::<Seq<PathSegment>>::empty());
            assert(drawer.states() =~= Map::<Seq<char>, i32>::empty());
            assert(drawer.styles() =~= Map::<i32, Seq<char>>::empty());
        }
        drawer
    }

    /// Whether the drawer holds exactly this frame and these shapes.
    pub open spec fn shows(&self, drawing: (ViewBox, Shapes)) -> bool {
        &&& self.view_box() == drawing.0
        &&& self.shape_ids() == drawing.1.ids
        &&& self.shape_paths() == drawing.1.paths
    }

    /// What a load does: where the document gives a drawing, frame and shapes
    /// are replaced by it and the load succeeds; where it gives an error, the
    /// load fails with it and nothing changes. States and styles stay.
    pub open spec fn load_result(
        before: &Self,
        outcome: Result<(ViewBox, Shapes), LoadError>,
        after: &Self,
        result: Result<(), LoadError>,
    ) -> bool {
        &&& after.states() == before.states()
        &&& after.styles() == before.styles()
        &&& match outcome {
            Ok(drawing) => result is Ok && after.shows(drawing),
            Err(e) => result == Err::<(), LoadError>(e) && *after == *before,
        }
    }

    /// A load that fails leaves the drawer as it was, and a load of a
    /// document without a frame fails for want of the frame.
    pub proof fn lemma_failed_load_changes_nothing(
        before: &Self,
        nodes: Option<Seq<NodeView>>,
        after: &Self,
        result: Result<(), LoadError>,
    )
        requires
            Self::load_result(before, loaded(nodes), after, result),
        ensures
            result is Err ==> *after == *before,
            result is Err <==> loaded(nodes) is Err,
            frame_is_missing(nodes) ==> result == Err::<(), LoadError>(LoadError::MissingViewBox) && *after
                == *before,
    {
    }

    /// Replaces frame and shapes by those of a document that is given by its
    /// nodes.
    pub fn load_nodes(&mut self, nodes: &Vec<Node>) -> (result: Result<(), LoadError>)
        requires
            old(self).wf(),
        ensures
            final(self).wf(),
            Self::load_result(old(self), loaded(Some(node_views(nodes@))), final(self), result),
            result is Err ==> *final(self) == *old(self),
    {
        match read_drawing(nodes) {
            Ok((frame, table)) => {
                self.view_box = frame;
                self.dynamic_shapes = table;
                Ok(())
            },
            Err(e) => Err(e),
        }
    }

    /// Replaces frame and shapes by those of the document `svg_content`.
    pub fn parse_svg(&mut self, svg_content: &str) -> (result: Result<(), LoadError>)
        requires
            old(self).wf(),
        ensures
            final(self).wf(),
            Self::load_result(old(self), loaded(document_nodes(svg_content@)), final(self), result),
            result is Err ==> *final(self) == *old(self),
    {
        match load_drawing(svg_content) {
            Ok((frame, table)) => {
                self.view_box = frame;
                self.dynamic_shapes = table;
                Ok(())
            },
            Err(e) => Err(e),
        }
    }

    /// Records the state of a shape, whether or not the shape is known.
    pub fn set_shape_state(&mut self, shape_id: String, state: i32)
        requires
            old(self).wf(),
        ensures
            final(self).wf(),
            final(self).states() == old(self).states().insert(shape_id@, state),
            final(self).styles() == old(self).styles(),
            final(self).view_box() == old(self).view_box(),
            final(self).shape_ids() == old(self).shape_ids(),
            final(self).shape_paths() == old(self).shape_paths(),
    {
        self.shape_states.insert(shape_id, state);
    }

    /// Records the fill style of a state, whether or not a shape has it.
    pub fn set_state_fill_style(&mut self, state: i32, fill_style: String)
        requires
            old(self).wf(),
        ensures
            final(self).wf(),
            final(self).styles() == old(self).styles().insert(state, fill_style@),
            final(self).states() == old(self).states(),
            final(self).view_box() == old(self).view_box(),
            final(self).shape_ids() == old(self).shape_ids(),
            final(self).shape_paths() == old(self).shape_paths(),
    {
        self.state_fill_styles.insert(state, fill_style);
        proof {
            assert(self.styles() =~= old(self).styles().insert(state, fill_style@));
        }
    }

    /// The frame of the drawing.
    pub fn frame(&self) -> (frame: ViewBox)
        ensures
            frame == self.view_box(),
    {
        self.view_box
    }

    /// The size in pixels that the surface takes before the shapes are
    /// drawn: width and height of the frame, cut down to whole numbers.
    pub fn canvas_size(&self) -> (size: (u32, u32))
        ensures
            size.0 == whole_part(self.view_box().w),
            size.1 == whole_part(self.view_box().h),
    {
        (truncate(self.view_box.w), truncate(self.view_box.h))
    }

    /// The number of shapes.
    pub fn shape_count(&self) -> (count: usize)
        ensures
            count == self.shape_ids().len(),
            count == self.shape_paths().len(),
    {
        self.dynamic_shapes.len()
    }

    /// The identifier of shape `i`.
    pub fn shape_id(&self, i: usize) -> (id: &String)
        requires
            i < self.shape_ids().len(),
        ensures
            id@ == self.shape_ids()[i as int],
    {
        self.dynamic_shapes.key_at(i)
    }

    /// The commands of a shape depend on its own instructions alone: whatever
    /// other shapes stand beside it, in this drawer or another, and whatever
    /// was resolved before, a shape with the same instructions resolves to
    /// the same commands, the sum giving one result for each pair of
    /// operands.
    pub proof fn lemma_shapes_resolve_alone<F: Fn(u64, u64) -> u64>(
        sum: F,
        one: &Self,
        i: int,
        one_commands: Seq<Command>,
        other: &Self,
        j: int,
        other_commands: Seq<Command>,
    )
        requires
            single_valued(sum),
            0 <= i < one.shape_paths().len(),
            0 <= j < other.shape_paths().len(),
            one.shape_paths()[i] == other.shape_paths()[j],
            is_resolution(sum, steps(one.shape_paths()[i]), 0, 0, one_commands),
            is_resolution(sum, steps(other.shape_paths()[j]), 0, 0, other_commands),
        ensures
            one_commands == other_commands,
    {
        lemma_resolution_is_unique(sum, one.shape_paths()[i], 0, 0, one_commands, other_commands);
    }

    /// The drawing commands of shape `i`. Every shape is resolved on its own,
    /// with the running point at the origin when its path begins.
    pub fn shape_path<F: Fn(u64, u64) -> u64>(&self, i: usize, sum: &F) -> (commands: Vec<Command>)
        requires
            i < self.shape_paths().len(),
            forall|a: u64, b: u64| call_requires(*sum, (a, b)),
        ensures
            is_resolution(*sum, steps(self.shape_paths()[i as int]), 0, 0, commands@),
    {
        resolve_absolute(self.dynamic_shapes.value_at(i), 0, 0, sum)
    }

    /// Maps a pointer position, given as fractions of the surface, into the
    /// frame: each fraction is multiplied by the frame's extent, the fraction
    /// being the first operand of `product`.
    pub fn get_point_on_canvas<F: Fn(u64, u64) -> u64>(&self, rel_x: u64, rel_y: u64, product: &F) -> (point: Point)
        requires
            forall|a: u64, b: u64| call_requires(*product, (a, b)),
        ensures
            call_ensures(*product, (rel_x, self.view_box().w), point.x),
            call_ensures(*product, (rel_y, self.view_box().h), point.y),
    {
        let x = product(rel_x, self.view_box.w);
        let y = product(rel_y, self.view_box.h);
        Point { x, y }
    }

    /// The shape whose path is to be tested next, given the answers so far:
    /// the one after the last answer, as long as no answer is "contained" and
    /// a shape is left; none once the hit test is decided.
    pub fn next_probe(&self, contained: &Vec<bool>) -> (next: Option<usize>)
        ensures
            next == if contained@.len() < self.shape_ids().len() && first_true(contained@) is None {
                Some(contained@.len() as usize)
            } else {
                None
            },
    {
        let given = contained.len();
        if given >= self.dynamic_shapes.len() {
            return None;
        }
        let mut i: usize = 0;
        while i < given
            invariant
                i <= given,
                given == contained@.len(),
                forall|j: int| 0 <= j < i ==> !contained@[j],
            decreases given - i,
        {
            if contained[i] {
                proof {
                    lemma_first_true_found(contained@, i as int);
                }
                return None;
            }
            i = i + 1;
        }
        proof {
            lemma_first_true(contained@);
        }
        Some(given)
    }

    /// The shape that is hit: the first, in the order of the shapes, whose
    /// path contains the pointer, `contained` holding the answer for each
    /// shape in that order.
    pub fn get_dynamic_shape_for_pos(&self, contained: &Vec<bool>) -> (hit: Option<String>)
        requires
            self.wf(),
        ensures
            match first_true(answers(contained@, self.shape_ids().len() as int)) {
                Some(i) => hit matches Some(id) && id@ == self.shape_ids()[i],
                None => hit is None,
            },
    {
        let count = self.dynamic_shapes.len();
        let ghost flags = answers(contained@, count as int);
        let mut i: usize = 0;
        while i < count
            invariant
                i <= count,
                count == self.shape_ids().len(),
                flags == answers(contained@, count as int),
                forall|j: int| 0 <= j < i ==> !flags[j],
            decreases count - i,
        {
            if i < contained.len() && contained[i] {
                proof {
                    lemma_first_true_found(flags, i as int);
                }
                return Some(self.dynamic_shapes.key_at(i).clone());
            }
            i = i + 1;
        }
        proof {
            lemma_first_true(flags);
        }
        None
    }

    /// The fill style of a shape from its state alone.
    pub fn state_fill_style(&self, shape_id: &String) -> (style: String)
        requires
            self.wf(),
        ensures
            style@ == resolved_style(self.states(), self.styles(), shape_id@, false),
    {
        match self.shape_states.get(shape_id) {
            Some(state) => match self.state_fill_styles.get(state) {
                Some(style) => style.clone(),
                None => "rgba(255,255,255,0.2)".to_owned(),
            },
            None => "rgba(255,255,255,0.2)".to_owned(),
        }
    }

    /// The fill style with which shape `i` is drawn.
    pub fn draw_path(&self, i: usize, hovered: bool) -> (style: String)
        requires
            self.wf(),
            i < self.shape_ids().len(),
        ensures
            style@ == resolved_style(self.states(), self.styles(), self.shape_ids()[i as int], hovered),
    {
        if hovered {
            "rgba(107,148,179,0.2)".to_owned()
        } else {
            self.state_fill_style(self.dynamic_shapes.key_at(i))
        }
    }

    /// The fill styles with which the shapes are drawn, in the order of the
    /// shapes, `contained` holding for each whether its path contains the
    /// pointer.
    pub fn draw_svg_with_x_y(&self, contained: &Vec<bool>) -> (fills: Vec<String>)
        requires
            self.wf(),
        ensures
            fills@.len() == self.shape_ids().len(),
            forall|i: int|
                #![trigger fills@[i]]
                0 <= i < fills@.len() ==> fills@[i]@ == resolved_style(
                    self.states(),
                    self.styles(),
                    self.shape_ids()[i],
                    answers(contained@, self.shape_ids().len() as int)[i],
                ),
    {
        let count = self.dynamic_shapes.len();
        let mut fills: Vec<String> = Vec::new();
        let mut i: usize = 0;
        while i < count
            invariant
                i <= count,
                self.wf(),
                count == self.shape_ids().len(),
                fills@.len() == i,
                forall|k: int|
                    #![trigger fills@[k]]
                    0 <= k < i ==> fills@[k]@ == resolved_style(
                        self.states(),
                        self.styles(),
                        self.shape_ids()[k],
                        answers(contained@, count as int)[k],
                    ),
            decreases count - i,
        {
            let hovered = i < contained.len() && contained[i];
            let style = self.draw_path(i, hovered);
            fills.push(style);
            i = i + 1;
        }
        fills
    }
}

} // verus!
