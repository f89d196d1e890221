//! The drawing controller: scene, in-progress drawing, selection, clipboard,
//! undo/redo log and camera, owned together by one value.
use vstd::prelude::*;
use vstd::string::StringExecFns;
use crate::camera::{fitted, screen_ok, stepped_zoom, clamp_zoom, to_world, zoomed_around, Camera, SCREEN_LIMIT};
use crate::element::{
    box_ok, pt, pt_in_range, Element, ElementModel, Shape, ShapeModel, Style, WIDTH_LIMIT,
};
use crate::geometry::{isqrt, BoundingBox, Point, COORD_LIMIT};
use crate::history::{
    absent, action_absent, all_issued, deleted_list, redo_effect, undo_effect, MOVE_LIMIT, id_set, ids_of, keep_sel, models, remove_sel, translate_sel, Action,
    ActionModel,
};

verus! {

/// Stroke width a new canvas starts with.
pub const DEFAULT_WIDTH: u32 = 5;

/// How far each paste shifts the copies, in world units on both axes.
pub const PASTE_OFFSET: i64 = 20;


/// The active tool; it decides what pointer gestures do.
#[derive(Clone, Copy, Debug, PartialEq, Eq, Structural)]
pub enum ToolMode {
    Pen,
    Eraser,
    Select,
    Line,
    Rectangle,
    Circle,
}

/// The tool that a name selects: "pen", "eraser", "select", "line", "rect" or
/// "circle"; any other name selects the pen.
pub open spec fn tool_named(name: Seq<char>) -> ToolMode {
    if name == "eraser"@ {
        ToolMode::Eraser
    } else if name == "select"@ {
        ToolMode::Select
    } else if name == "line"@ {
        ToolMode::Line
    } else if name == "rect"@ {
        ToolMode::Rectangle
    } else if name == "circle"@ {
        ToolMode::Circle
    } else {
        ToolMode::Pen
    }
}

/// Whether `r` is the integer square root of `n`.
pub open spec fn is_root(r: int, n: int) -> bool {
    0 <= r && r * r <= n < (r + 1) * (r + 1)
}

/// The integer square root of `n`.
pub open spec fn root_of(n: int) -> int {
    choose|r: int| is_root(r, n)
}

proof fn lemma_root_unique(r: int, n: int)
    requires
        is_root(r, n),
    ensures
        root_of(n) == r,
{
    let c = root_of(n);
    assert(is_root(c, n));
    if c < r {
        assert((c + 1) * (c + 1) <= r * r) by (nonlinear_arith)
            requires
                0 <= c < r,
        ;
    } else if r < c {
        assert((r + 1) * (r + 1) <= c * c) by (nonlinear_arith)
            requires
                0 <= r < c,
        ;
    }
}

/// The shape a drag from `(sx, sy)` to `(ex, ey)` makes with a shape tool:
/// a line between the two points; the rectangle they span, unless both its
/// sides are empty; or a circle centred at the start through the end (radius
/// rounded down), unless the radius is zero. Other tools make none.
pub open spec fn dragged_shape(tool: ToolMode, sx: int, sy: int, ex: int, ey: int, r: int) -> Option<ShapeModel> {
    match tool {
        ToolMode::Line => Some(ShapeModel::Line(sx, sy, ex, ey)),
        ToolMode::Rectangle => if sx == ex && sy == ey {
            None
        } else {
            Some(
                ShapeModel::Rect(
                    if sx <= ex { sx } else { ex },
                    if sy <= ey { sy } else { ey },
                    if sx <= ex { ex - sx } else { sx - ex },
                    if sy <= ey { ey - sy } else { sy - ey },
                ),
            )
        },
        ToolMode::Circle => if r < 1 {
            None
        } else {
            Some(ShapeModel::Circle(sx, sy, r))
        },
        _ => None,
    }
}

/// The drawing controller.
pub struct Canvas {
    pub elements: Vec<Element>,
    pub current_element: Option<Element>,
    pub next_id: u64,
    pub color: String,
    pub line_width: u32,
    pub is_drawing: bool,
    pub is_eraser: bool,
    pub cursor_x: i64,
    pub cursor_y: i64,
    pub show_cursor: bool,
    pub tool_mode: ToolMode,
    pub selected_ids: Vec<u64>,
    pub clipboard: Vec<Element>,
    pub is_moving: bool,
    pub move_start_x: i64,
    pub move_start_y: i64,
    pub move_total_dx: i64,
    pub move_total_dy: i64,
    pub is_rubber_band: bool,
    pub rubber_band_start_x: i64,
    pub rubber_band_start_y: i64,
    pub rubber_band_end_x: i64,
    pub rubber_band_end_y: i64,
    pub undo_stack: Vec<Action>,
    pub redo_stack: Vec<Action>,
    pub camera: Camera,
    pub is_drawing_shape: bool,
    pub shape_start_x: i64,
    pub shape_start_y: i64,
    pub shape_end_x: i64,
    pub shape_end_y: i64,
    pub needs_render: bool,
}

pub open spec fn actions(v: Seq<Action>) -> Seq<ActionModel> {
    v.map_values(|a: Action| a@)
}

impl Canvas {
    /// The committed elements, in paint order.
    pub open spec fn scene(&self) -> Seq<ElementModel> {
        models(self.elements@)
    }

    /// The selected ids.
    pub open spec fn selection(&self) -> Set<u64> {
        crate::history::id_set(self.selected_ids@)
    }

    pub open spec fn undo_log(&self) -> Seq<ActionModel> {
        actions(self.undo_stack@)
    }

    pub open spec fn redo_log(&self) -> Seq<ActionModel> {
        actions(self.redo_stack@)
    }

    /// No element of the scene, the clipboard or either history carries `id`.
    pub open spec fn fresh(&self, id: u64) -> bool {
        &&& absent(self.scene(), id)
        &&& absent(models(self.clipboard@), id)
        &&& forall|j: int| 0 <= j < self.undo_stack@.len() ==> action_absent((#[trigger] self.undo_stack@[j])@, id)
        &&& forall|j: int| 0 <= j < self.redo_stack@.len() ==> action_absent((#[trigger] self.redo_stack@[j])@, id)
    }

    /// Ids are issued below `next_id`: every element of the scene, of the
    /// drawing in progress, of the clipboard and of the log has an id below
    /// it, so an id handed out from it is new; and the drawing in progress
    /// carries an id that no other element holds.
    pub open spec fn wf(&self) -> bool {
        &&& 1 <= self.next_id
        &&& all_issued(self.scene(), self.next_id)
        &&& all_issued(models(self.clipboard@), self.next_id)
        &&& (self.current_element matches Some(e) ==> e@.wf() && e.id < self.next_id && self.fresh(e.id))
        &&& forall|j: int| 0 <= j < self.undo_stack@.len() ==> (#[trigger] self.undo_stack@[j])@.wf(self.next_id)
        &&& forall|j: int| 0 <= j < self.redo_stack@.len() ==> (#[trigger] self.redo_stack@[j])@.wf(self.next_id)
        &&& self.selected_ids@.no_duplicates()
        &&& 1 <= self.line_width <= WIDTH_LIMIT
        &&& self.camera.wf()
        &&& pt_in_range(self.shape_start_x as int, self.shape_start_y as int)
        &&& pt_in_range(self.shape_end_x as int, self.shape_end_y as int)
        &&& pt_in_range(self.move_start_x as int, self.move_start_y as int)
        &&& -MOVE_LIMIT <= self.move_total_dx <= MOVE_LIMIT
        &&& -MOVE_LIMIT <= self.move_total_dy <= MOVE_LIMIT
        &&& screen_ok(self.rubber_band_start_x as int) && screen_ok(self.rubber_band_start_y as int)
        &&& screen_ok(self.rubber_band_end_x as int) && screen_ok(self.rubber_band_end_y as int)
    }

    /// An empty canvas over a viewport of the given size (in thousandths of a
    /// screen unit): pen tool, black, width 5, identity camera, ids from 1.
    pub fn new(view_width: i64, view_height: i64) -> (r: Canvas)
        requires
            0 < view_width <= SCREEN_LIMIT,
            0 < view_height <= SCREEN_LIMIT,
        ensures
            r.wf(),
            r.scene() == Seq::<ElementModel>::empty(),
            r.selection() == Set::<u64>::empty(),
            r.undo_log().len() == 0 && r.redo_log().len() == 0,
            r.next_id == 1,
            r.current_element.is_none(),
            r.color@ == "#000000"@,
            r.line_width == DEFAULT_WIDTH,
            r.tool_mode == ToolMode::Pen,
            r.camera.zoom == crate::camera::ZOOM_ONE && r.camera.pan_x == 0 && r.camera.pan_y == 0,
            r.camera.view_width == view_width && r.camera.view_height == view_height,
    {
        let r = Canvas {
            elements: Vec::new(),
            current_element: None,
            next_id: 1,
            color: String::from_str("#000000"),
            line_width: DEFAULT_WIDTH,
            is_drawing: false,
            is_eraser: false,
            cursor_x: 0,
            cursor_y: 0,
            show_cursor: false,
            tool_mode: ToolMode::Pen,
            selected_ids: Vec::new(),
            clipboard: Vec::new(),
            is_moving: false,
            move_start_x: 0,
            move_start_y: 0,
            move_total_dx: 0,
            move_total_dy: 0,
            is_rubber_band: false,
            rubber_band_start_x: 0,
            rubber_band_start_y: 0,
            rubber_band_end_x: 0,
            rubber_band_end_y: 0,
            undo_stack: Vec::new(),
            redo_stack: Vec::new(),
            camera: Camera::new(view_width, view_height),
            is_drawing_shape: false,
            shape_start_x: 0,
            shape_start_y: 0,
            shape_end_x: 0,
            shape_end_y: 0,
            needs_render: false,
        };
        proof {
            assert(r.scene() =~= Seq::<ElementModel>::empty());
            assert(r.selection() =~= Set::<u64>::empty());
        }
        r
    }

    /// Sets the stroke colour; the tool stays.
    pub fn set_color(&mut self, color: &str)
        requires
            old(self).wf(),
        ensures
            final(self).wf(),
            *final(self) == (Canvas { color: final(self).color, needs_render: true, ..*old(self) }),
            final(self).color@ == color@,
    {
        self.color = String::from_str(color);
        self.needs_render = true;
    }

    /// Sets the stroke width; a width of zero or above the limit is ignored.
    pub fn set_line_width(&mut self, width: u32)
        requires
            old(self).wf(),
        ensures
            final(self).wf(),
            1 <= width <= WIDTH_LIMIT ==> *final(self) == (Canvas { line_width: width, needs_render: true, ..*old(self) }),
            !(1 <= width <= WIDTH_LIMIT) ==> *final(self) == *old(self),
    {
        if 1 <= width && width <= WIDTH_LIMIT {
            self.line_width = width;
            self.needs_render = true;
        }
    }

    /// Turns the eraser on or off; turning it on also picks the eraser tool.
    pub fn set_eraser(&mut self, is_eraser: bool)
        requires
            old(self).wf(),
        ensures
            final(self).wf(),
            *final(self) == (Canvas {
                is_eraser,
                tool_mode: if is_eraser { ToolMode::Eraser } else { old(self).tool_mode },
                needs_render: true,
                ..*old(self)
            }),
    {
        self.is_eraser = is_eraser;
        if is_eraser {
            self.tool_mode = ToolMode::Eraser;
        }
        self.needs_render = true;
    }

    pub fn get_is_drawing(&self) -> (r: bool)
        ensures
            r == self.is_drawing,
    {
        self.is_drawing
    }

    pub fn get_is_eraser(&self) -> (r: bool)
        ensures
            r == self.is_eraser,
    {
        self.is_eraser
    }

    /// Places the cursor preview at `(x, y)` and shows it.
    pub fn update_cursor(&mut self, x: i64, y: i64)
        requires
            old(self).wf(),
        ensures
            final(self).wf(),
            *final(self) == (Canvas { cursor_x: x, cursor_y: y, show_cursor: true, needs_render: true, ..*old(self) }),
    {
        self.cursor_x = x;
        self.cursor_y = y;
        self.show_cursor = true;
        self.needs_render = true;
    }

    pub fn hide_cursor(&mut self)
        requires
            old(self).wf(),
        ensures
            final(self).wf(),
            *final(self) == (Canvas { show_cursor: false, needs_render: true, ..*old(self) }),
    {
        self.show_cursor = false;
        self.needs_render = true;
    }

    /// Switches to the tool that `mode` names (see `tool_named`), ending any
    /// freehand or shape gesture; the eraser flag follows the tool.
    pub fn set_tool_mode(&mut self, mode: &str)
        requires
            old(self).wf(),
        ensures
            final(self).wf(),
            *final(self) == (Canvas {
                tool_mode: tool_named(mode@),
                is_eraser: tool_named(mode@) == ToolMode::Eraser,
                is_drawing: false,
                is_drawing_shape: false,
                needs_render: true,
                ..*old(self)
            }),
    {
        let tool = tool_from_name(mode);
        self.is_eraser = tool == ToolMode::Eraser;
        self.is_drawing = false;
        self.is_drawing_shape = false;
        self.tool_mode = tool;
        self.needs_render = true;
    }

    /// Whether the tool draws lines, rectangles or circles.
    pub fn is_shape_tool(&self) -> (r: bool)
        ensures
            r == (self.tool_mode == ToolMode::Line || self.tool_mode == ToolMode::Rectangle
                || self.tool_mode == ToolMode::Circle),
    {
        match self.tool_mode {
            ToolMode::Line | ToolMode::Rectangle | ToolMode::Circle => true,
            _ => false,
        }
    }

    pub fn get_is_drawing_shape(&self) -> (r: bool)
        ensures
            r == self.is_drawing_shape,
    {
        self.is_drawing_shape
    }

    /// Starts a shape drag at world point `(x, y)`; a point out of range is
    /// ignored.
    pub fn start_shape(&mut self, x: i64, y: i64)
        requires
            old(self).wf(),
        ensures
            final(self).wf(),
            pt_in_range(x as int, y as int) ==> *final(self) == (Canvas {
                is_drawing_shape: true,
                shape_start_x: x,
                shape_start_y: y,
                shape_end_x: x,
                shape_end_y: y,
                ..*old(self)
            }),
            !pt_in_range(x as int, y as int) ==> *final(self) == *old(self),
    {
        if !point_ok(x, y) {
            return;
        }
        self.is_drawing_shape = true;
        self.shape_start_x = x;
        self.shape_start_y = y;
        self.shape_end_x = x;
        self.shape_end_y = y;
    }

    /// Moves the end of the shape drag to `(x, y)`; ignored when no drag is
    /// going on or the point is out of range.
    pub fn update_shape(&mut self, x: i64, y: i64)
        requires
            old(self).wf(),
        ensures
            final(self).wf(),
            old(self).is_drawing_shape && pt_in_range(x as int, y as int) ==> *final(self) == (Canvas {
                shape_end_x: x,
                shape_end_y: y,
                needs_render: true,
                ..*old(self)
            }),
            !(old(self).is_drawing_shape && pt_in_range(x as int, y as int)) ==> *final(self) == *old(self),
    {
        if !self.is_drawing_shape || !point_ok(x, y) {
            return;
        }
        self.shape_end_x = x;
        self.shape_end_y = y;
        self.needs_render = true;
    }

    /// Ends the shape drag. When the tool and the drag make a shape (see
    /// `dragged_shape`), it becomes a new element with the next id and the
    /// current colour and width, is appended to the scene, and is recorded
    /// for undo; the redo history is dropped. A degenerate drag, or one with
    /// no id left to issue, adds nothing.
    pub fn finish_shape(&mut self)
        requires
            old(self).wf(),
        ensures
            final(self).wf(),
            !old(self).is_drawing_shape ==> *final(self) == *old(self),
            old(self).is_drawing_shape ==> !final(self).is_drawing_shape,
            old(self).is_drawing_shape ==> ({
                let o = *old(self);
                let dx = o.shape_end_x - o.shape_start_x;
                let dy = o.shape_end_y - o.shape_start_y;
                let r = root_of(dx * dx + dy * dy);
                ({
                    let made = dragged_shape(o.tool_mode, o.shape_start_x as int, o.shape_start_y as int, o.shape_end_x as int, o.shape_end_y as int, r);
                    match made {
                        Some(shape) if o.next_id < u64::MAX => {
                            let e = ElementModel { id: o.next_id, shape, color: o.color@, width: o.line_width as int };
                            &&& final(self).scene() == o.scene().push(e)
                            &&& final(self).next_id == o.next_id + 1
                            &&& final(self).undo_log() == o.undo_log().push(ActionModel::Add(e))
                            &&& final(self).redo_log().len() == 0
                        },
                        _ => {
                            &&& final(self).scene() == o.scene()
                            &&& final(self).next_id == o.next_id
                            &&& final(self).undo_log() == o.undo_log()
                            &&& final(self).redo_log() == o.redo_log()
                        },
                    }
                })
            }),
            final(self).selection() == old(self).selection(),
            final(self).current_element == old(self).current_element,
    {
        if !self.is_drawing_shape {
            return;
        }
        self.is_drawing_shape = false;
        self.needs_render = true;
        let sx = self.shape_start_x;
        let sy = self.shape_start_y;
        let ex = self.shape_end_x;
        let ey = self.shape_end_y;
        let dx = ex - sx;
        let dy = ey - sy;
        proof {
            assert(0 <= dx * dx <= 0x4_0000_0000_0000) by (nonlinear_arith)
                requires
                    -0x200_0000 <= dx <= 0x200_0000,
            ;
            assert(0 <= dy * dy <= 0x4_0000_0000_0000) by (nonlinear_arith)
                requires
                    -0x200_0000 <= dy <= 0x200_0000,
            ;
        }
        let d2 = (dx * dx + dy * dy) as u64;
        let root = isqrt(d2);
        proof {
            assert(root <= 0x400_0000) by (nonlinear_arith)
                requires
                    root * root <= d2,
                    d2 <= 0x8_0000_0000_0000,
            ;
        }
        let r = root as i64;
        proof {
            lemma_root_unique(r as int, dx * dx + dy * dy);
        }
        let shape = match self.tool_mode {
            ToolMode::Line => Shape::Line { x1: sx, y1: sy, x2: ex, y2: ey },
            ToolMode::Rectangle => {
                if sx == ex && sy == ey {
                    return;
                }
                Shape::Rect {
                    x: if sx <= ex { sx } else { ex },
                    y: if sy <= ey { sy } else { ey },
                    w: if sx <= ex { ex - sx } else { sx - ex },
                    h: if sy <= ey { ey - sy } else { sy - ey },
                }
            },
            ToolMode::Circle => {
                if r < 1 {
                    return;
                }
                Shape::Circle { cx: sx, cy: sy, r }
            },
            _ => {
                return;
            },
        };
        if self.next_id == u64::MAX {
            return;
        }
        let element = Element {
            id: self.next_id,
            shape,
            style: Style { color: self.color.clone(), width: self.line_width },
        };
        assert(element@.wf());
        self.next_id = self.next_id + 1;
        self.commit(element);
    }

    /// Appends a new element to the scene and records it for undo, dropping
    /// the redo history.
    fn commit(&mut self, element: Element)
        requires
            old(self).wf(),
            element@.wf(),
            element.id < old(self).next_id,
            old(self).current_element matches Some(c) ==> c.id != element.id,
        ensures
            final(self).wf(),
            *final(self) == (Canvas {
                elements: final(self).elements,
                undo_stack: final(self).undo_stack,
                redo_stack: final(self).redo_stack,
                ..*old(self)
            }),
            final(self).scene() == old(self).scene().push(element@),
            final(self).undo_log() == old(self).undo_log().push(ActionModel::Add(element@)),
            final(self).redo_log().len() == 0,
    {
        let copy = element.clone();
        self.undo_stack.push(Action::AddElement { element: copy });
        self.redo_stack.clear();
        self.elements.push(element);
        proof {
            assert(self.scene() =~= old(self).scene().push(element@));
            assert(self.undo_log() =~= old(self).undo_log().push(ActionModel::Add(element@)));
            assert(self.redo_log() =~= Seq::<ActionModel>::empty());
            if let Some(c) = &self.current_element {
                assert forall|j: int| 0 <= j < self.scene().len() implies (#[trigger] self.scene()[j]).id != c.id by {
                    if j < old(self).scene().len() {
                        assert(self.scene()[j] == old(self).scene()[j]);
                    }
                }
                assert forall|j: int| 0 <= j < self.undo_stack@.len() implies action_absent((#[trigger] self.undo_stack@[j])@, c.id) by {
                    if j < old(self).undo_stack@.len() {
                        assert(self.undo_stack@[j] == old(self).undo_stack@[j]);
                    }
                }
            }
        }
    }

    /// Starts a freehand stroke at `(x, y)`: the drawing in progress becomes
    /// a one-point freehand element with the next id, drawn in white with the
    /// eraser and in the current colour otherwise. A point out of range, or
    /// no id left to issue, is ignored.
    pub fn start_drawing(&mut self, x: i64, y: i64)
        requires
            old(self).wf(),
        ensures
            final(self).wf(),
            pt_in_range(x as int, y as int) && old(self).next_id < u64::MAX ==> {
                &&& final(self).is_drawing
                &&& final(self).next_id == old(self).next_id + 1
                &&& final(self).current_element matches Some(e) && e@ == (ElementModel {
                    id: old(self).next_id,
                    shape: ShapeModel::Freehand(seq![pt(x as int, y as int)]),
                    color: if old(self).is_eraser { "#ffffff"@ } else { old(self).color@ },
                    width: old(self).line_width as int,
                })
                &&& *final(self) == (Canvas {
                    is_drawing: true,
                    next_id: final(self).next_id,
                    current_element: final(self).current_element,
                    ..*old(self)
                })
            },
            !(pt_in_range(x as int, y as int) && old(self).next_id < u64::MAX) ==> *final(self) == *old(self),
    {
        if !point_ok(x, y) || self.next_id == u64::MAX {
            return;
        }
        let color = if self.is_eraser {
            String::from_str("#ffffff")
        } else {
            self.color.clone()
        };
        let points = vec![Point { x, y }];
        let element = Element {
            id: self.next_id,
            shape: Shape::Freehand { points },
            style: Style { color, width: self.line_width },
        };
        proof {
            assert(points@ =~= seq![pt(x as int, y as int)]);
        }
        self.is_drawing = true;
        self.current_element = Some(element);
        self.next_id = self.next_id + 1;
    }

    /// Adds `(x, y)` to the freehand stroke in progress; ignored when no
    /// stroke is being drawn or the point is out of range.
    pub fn draw(&mut self, x: i64, y: i64)
        requires
            old(self).wf(),
        ensures
            final(self).wf(),
            old(self).is_drawing && pt_in_range(x as int, y as int) ==> {
                &&& *final(self) == (Canvas {
                    current_element: final(self).current_element,
                    needs_render: true,
                    ..*old(self)
                })
                &&& match old(self).current_element {
                    Some(e) => final(self).current_element matches Some(f) && f@ == (match e@.shape {
                        ShapeModel::Freehand(ps) => ElementModel {
                            shape: ShapeModel::Freehand(ps.push(pt(x as int, y as int))),
                            ..e@
                        },
                        _ => e@,
                    }),
                    None => final(self).current_element.is_none(),
                }
            },
            !(old(self).is_drawing && pt_in_range(x as int, y as int)) ==> *final(self) == *old(self),
    {
        if !self.is_drawing || !point_ok(x, y) {
            return;
        }
        let cur = self.current_element.take();
        self.current_element = match cur {
            Some(e) => {
                let Element { id, shape, style } = e;
                let shape = match shape {
                    Shape::Freehand { points } => {
                        let mut points = points;
                        points.push(Point { x, y });
                        Shape::Freehand { points }
                    },
                    other => other,
                };
                Some(Element { id, shape, style })
            },
            None => None,
        };
        self.needs_render = true;
    }

    /// Ends the freehand stroke: a stroke of more than one point is appended
    /// to the scene and recorded for undo (the redo history is dropped); a
    /// shorter one is discarded. Nothing is in progress afterwards.
    pub fn stop_drawing(&mut self)
        requires
            old(self).wf(),
        ensures
            final(self).wf(),
            !final(self).is_drawing,
            final(self).current_element.is_none(),
            final(self).next_id == old(self).next_id,
            final(self).selection() == old(self).selection(),
            match old(self).current_element {
                Some(e) if (e@.shape matches ShapeModel::Freehand(ps) && ps.len() > 1) => {
                    &&& final(self).scene() == old(self).scene().push(e@)
                    &&& final(self).undo_log() == old(self).undo_log().push(ActionModel::Add(e@))
                    &&& final(self).redo_log().len() == 0
                },
                _ => {
                    &&& final(self).scene() == old(self).scene()
                    &&& final(self).undo_log() == old(self).undo_log()
                    &&& final(self).redo_log() == old(self).redo_log()
                },
            },
    {
        self.is_drawing = false;
        let cur = self.current_element.take();
        match cur {
            Some(e) => {
                let long = match &e.shape {
                    Shape::Freehand { points } => points.len() > 1,
                    _ => false,
                };
                if long {
                    self.commit(e);
                }
            },
            None => {},
        }
    }

    /// Removes every element, recording them for undo when there were any
    /// (the redo history is then dropped); ends any drawing in progress and
    /// clears the selection.
    pub fn clear(&mut self)
        requires
            old(self).wf(),
        ensures
            final(self).wf(),
            final(self).scene() == Seq::<ElementModel>::empty(),
            final(self).selection() == Set::<u64>::empty(),
            final(self).current_element.is_none(),
            final(self).next_id == old(self).next_id,
            final(self).needs_render,
            old(self).scene().len() > 0 ==> final(self).undo_log() == old(self).undo_log().push(
                ActionModel::Clear(old(self).scene()),
            ) && final(self).redo_log().len() == 0,
            old(self).scene().len() == 0 ==> final(self).undo_log() == old(self).undo_log()
                && final(self).redo_log() == old(self).redo_log(),
    {
        if self.elements.len() > 0 {
            let snapshot = crate::history::copy_all(&self.elements);
            self.undo_stack.push(Action::ClearAll { elements: snapshot });
            self.redo_stack.clear();
            proof {
                assert(self.undo_log() =~= old(self).undo_log().push(ActionModel::Clear(old(self).scene())));
                assert(self.redo_log() =~= Seq::<ActionModel>::empty());
            }
        }
        self.elements = Vec::new();
        self.current_element = None;
        self.selected_ids = Vec::new();
        self.needs_render = true;
        proof {
            assert(self.scene() =~= Seq::<ElementModel>::empty());
            assert(self.selection() =~= Set::<u64>::empty());
        }
    }

    /// Number of committed elements.
    pub fn get_stroke_count(&self) -> (r: usize)
        ensures
            r == self.scene().len(),
    {
        self.elements.len()
    }

    /// Picks the select tool (ending eraser and freehand drawing), or goes
    /// back to the pen.
    pub fn set_select_mode(&mut self, is_select: bool)
        requires
            old(self).wf(),
        ensures
            final(self).wf(),
            is_select ==> *final(self) == (Canvas {
                tool_mode: ToolMode::Select,
                is_eraser: false,
                is_drawing: false,
                ..*old(self)
            }),
            !is_select ==> *final(self) == (Canvas { tool_mode: ToolMode::Pen, ..*old(self) }),
    {
        if is_select {
            self.tool_mode = ToolMode::Select;
            self.is_eraser = false;
            self.is_drawing = false;
        } else {
            self.tool_mode = ToolMode::Pen;
        }
    }

    pub fn get_is_select_mode(&self) -> (r: bool)
        ensures
            r == (self.tool_mode == ToolMode::Select),
    {
        self.tool_mode == ToolMode::Select
    }

    /// Selects what lies under `(x, y)`: the topmost element whose outline is
    /// hit (see `picked`). A plain click makes it the whole selection, or
    /// clears the selection on a miss; a shift click toggles the element and
    /// leaves the selection alone on a miss. Returns whether an element was
    /// hit.
    pub fn try_select_at(&mut self, x: i64, y: i64, shift: bool) -> (r: bool)
        requires
            old(self).wf(),
        ensures
            final(self).wf(),
            r == picked(old(self).scene(), x as int, y as int).is_some(),
            final(self).selection() == match picked(old(self).scene(), x as int, y as int) {
                Some(id) => if !shift {
                    set![id]
                } else if old(self).selection().contains(id) {
                    old(self).selection().remove(id)
                } else {
                    old(self).selection().insert(id)
                },
                None => if shift {
                    old(self).selection()
                } else {
                    Set::empty()
                },
            },
            *final(self) == (Canvas { selected_ids: final(self).selected_ids, needs_render: true, ..*old(self) }),
    {
        let hit = self.hit_at(x, y);
        self.needs_render = true;
        match hit {
            Some(id) => {
                if shift {
                    toggle_id(&mut self.selected_ids, id);
                } else {
                    self.selected_ids = vec![id];
                    proof {
                        assert(self.selection() =~= set![id]);
                        assert(self.selected_ids@.no_duplicates());
                    }
                }
                true
            },
            None => {
                if !shift {
                    self.selected_ids = Vec::new();
                    assert(self.selection() =~= Set::<u64>::empty());
                }
                false
            },
        }
    }

    /// The id of the topmost element whose outline is hit at `(x, y)`.
    fn hit_at(&self, x: i64, y: i64) -> (r: Option<u64>)
        requires
            self.wf(),
        ensures
            r == picked(self.scene(), x as int, y as int),
    {
        if !point_ok(x, y) {
            return None;
        }
        let ghost s = self.scene();
        let mut i: usize = self.elements.len();
        assert(s.take(i as int) =~= s);
        while i > 0
            invariant
                i <= self.elements.len(),
                s == self.scene(),
                all_issued(s, self.next_id),
                pt_in_range(x as int, y as int),
                topmost_hit(s, pt(x as int, y as int)) == topmost_hit(s.take(i as int), pt(x as int, y as int)),
            decreases i,
        {
            assert(s.take(i as int).drop_last() =~= s.take(i - 1));
            assert(s[i - 1] == self.elements@[i - 1]@);
            if self.elements[i - 1].hit_test(x, y) {
                return Some(self.elements[i - 1].id);
            }
            i = i - 1;
        }
        None
    }

    /// Selects every element of the scene.
    pub fn select_all(&mut self)
        requires
            old(self).wf(),
        ensures
            final(self).wf(),
            final(self).selection() == crate::history::ids_of(old(self).scene()),
            *final(self) == (Canvas { selected_ids: final(self).selected_ids, needs_render: true, ..*old(self) }),
    {
        self.selected_ids = unique_ids(&self.elements);
        self.needs_render = true;
    }

    /// Empties the selection.
    pub fn deselect_all(&mut self)
        requires
            old(self).wf(),
        ensures
            final(self).wf(),
            final(self).selection() == Set::<u64>::empty(),
            *final(self) == (Canvas { selected_ids: final(self).selected_ids, needs_render: true, ..*old(self) }),
    {
        self.selected_ids = Vec::new();
        self.needs_render = true;
        assert(self.selection() =~= Set::<u64>::empty());
    }

    pub fn has_selection(&self) -> (r: bool)
        ensures
            r == (self.selected_ids@.len() > 0),
    {
        self.selected_ids.len() > 0
    }

    /// Whether `(x, y)` hits the outline of a selected element (an in-range
    /// point only).
    pub fn is_over_selected(&self, x: i64, y: i64) -> (r: bool)
        requires
            self.wf(),
        ensures
            r == (pt_in_range(x as int, y as int) && exists|j: int|
                0 <= j < self.scene().len() && self.selection().contains(self.scene()[j].id)
                    && (#[trigger] self.scene()[j]).hits(pt(x as int, y as int))),
    {
        if !point_ok(x, y) {
            return false;
        }
        let ghost s = self.scene();
        let mut i: usize = 0;
        while i < self.elements.len()
            invariant
                i <= self.elements.len(),
                s == self.scene(),
                all_issued(s, self.next_id),
                pt_in_range(x as int, y as int),
                forall|j: int|
                    0 <= j < i ==> !(self.selection().contains(s[j].id) && (#[trigger] s[j]).hits(
                        pt(x as int, y as int),
                    )),
            decreases self.elements.len() - i,
        {
            assert(s[i as int] == self.elements@[i as int]@);
            if crate::history::contains_id(&self.selected_ids, self.elements[i].id)
                && self.elements[i].hit_test(x, y) {
                return true;
            }
            i = i + 1;
        }
        false
    }

    pub fn get_is_moving(&self) -> (r: bool)
        ensures
            r == self.is_moving,
    {
        self.is_moving
    }

    /// Starts a move gesture at world point `(x, y)`; a point out of range
    /// is ignored.
    pub fn start_move(&mut self, x: i64, y: i64)
        requires
            old(self).wf(),
        ensures
            final(self).wf(),
            pt_in_range(x as int, y as int) ==> *final(self) == (Canvas {
                is_moving: true,
                move_start_x: x,
                move_start_y: y,
                move_total_dx: 0,
                move_total_dy: 0,
                ..*old(self)
            }),
            !pt_in_range(x as int, y as int) ==> *final(self) == *old(self),
    {
        if !point_ok(x, y) {
            return;
        }
        self.is_moving = true;
        self.move_start_x = x;
        self.move_start_y = y;
        self.move_total_dx = 0;
        self.move_total_dy = 0;
    }

    /// Drags the selection to `(x, y)`: every selected element shifts by the
    /// distance from the previous drag point, which the gesture adds to its
    /// total. The step is ignored when no move is going on, the point is out
    /// of range, a selected element would leave the range, or the total would
    /// pass its limit.
    pub fn move_selected(&mut self, x: i64, y: i64)
        requires
            old(self).wf(),
        ensures
            final(self).wf(),
            ({
                let o = *old(self);
                let dx = x - o.move_start_x;
                let dy = y - o.move_start_y;
                if o.is_moving && pt_in_range(x as int, y as int) && movable(o.scene(), o.selection(), dx, dy)
                    && -MOVE_LIMIT <= o.move_total_dx + dx <= MOVE_LIMIT
                    && -MOVE_LIMIT <= o.move_total_dy + dy <= MOVE_LIMIT {
                    &&& final(self).scene() == translate_sel(o.scene(), o.selection(), dx, dy)
                    &&& *final(self) == (Canvas {
                        elements: final(self).elements,
                        move_total_dx: (o.move_total_dx + dx) as i64,
                        move_total_dy: (o.move_total_dy + dy) as i64,
                        move_start_x: x,
                        move_start_y: y,
                        needs_render: true,
                        ..o
                    })
                } else {
                    *final(self) == o
                }
            }),
    {
        if !self.is_moving || !point_ok(x, y) {
            return;
        }
        let dx = x - self.move_start_x;
        let dy = y - self.move_start_y;
        let tx = self.move_total_dx + dx;
        let ty = self.move_total_dy + dy;
        if tx < -MOVE_LIMIT || tx > MOVE_LIMIT || ty < -MOVE_LIMIT || ty > MOVE_LIMIT {
            return;
        }
        proof {
            assert forall|j: int| 0 <= j < self.elements@.len() implies models(self.elements@)[j] == (#[trigger] self.elements@[j])@ by {}
        }
        if !crate::history::can_translate_ids(&self.elements, &self.selected_ids, dx, dy) {
            proof {
                let j = choose|j: int| 0 <= j < self.elements@.len() && id_set(self.selected_ids@).contains(self.elements@[j].id) && !(#[trigger] self.elements@[j])@.shape.can_move(dx as int, dy as int);
                assert(self.scene()[j] == self.elements@[j]@);
            }
            return;
        }
        proof {
            assert(movable(self.scene(), self.selection(), dx as int, dy as int)) by {
                assert forall|j: int| 0 <= j < self.scene().len() && self.selection().contains(self.scene()[j].id) implies (#[trigger] self.scene()[j]).shape.can_move(dx as int, dy as int) by {
                    assert(self.scene()[j] == self.elements@[j]@);
                }
            }
            crate::history::lemma_translate_issued(self.scene(), self.selection(), dx as int, dy as int, self.next_id);
            assert(all_issued(self.scene(), u64::MAX));
        }
        crate::history::translate_ids(&mut self.elements, &self.selected_ids, dx, dy);
        self.move_total_dx = tx;
        self.move_total_dy = ty;
        self.move_start_x = x;
        self.move_start_y = y;
        self.needs_render = true;
    }

    /// Ends the move gesture; a gesture that moved by a non-zero total is
    /// recorded as one move of the selected ids (the redo history is dropped).
    pub fn stop_move(&mut self)
        requires
            old(self).wf(),
        ensures
            final(self).wf(),
            !final(self).is_moving,
            final(self).scene() == old(self).scene(),
            final(self).selection() == old(self).selection(),
            final(self).next_id == old(self).next_id,
            old(self).is_moving && (old(self).move_total_dx != 0 || old(self).move_total_dy != 0) ==> {
                &&& final(self).undo_log() == old(self).undo_log().push(
                    ActionModel::Move(old(self).selection(), old(self).move_total_dx as int, old(self).move_total_dy as int),
                )
                &&& final(self).redo_log().len() == 0
            },
            !(old(self).is_moving && (old(self).move_total_dx != 0 || old(self).move_total_dy != 0)) ==> {
                &&& final(self).undo_log() == old(self).undo_log()
                &&& final(self).redo_log() == old(self).redo_log()
            },
    {
        if self.is_moving && (self.move_total_dx != 0 || self.move_total_dy != 0) {
            let ids = copy_ids(&self.selected_ids);
            self.undo_stack.push(Action::MoveElements { ids, dx: self.move_total_dx, dy: self.move_total_dy });
            self.redo_stack.clear();
            proof {
                assert(self.undo_log() =~= old(self).undo_log().push(
                    ActionModel::Move(old(self).selection(), old(self).move_total_dx as int, old(self).move_total_dy as int),
                ));
                assert(self.redo_log() =~= Seq::<ActionModel>::empty());
            }
        }
        self.is_moving = false;
    }

    /// Puts copies of the selected elements on the clipboard, in paint order.
    pub fn copy_selected(&mut self)
        requires
            old(self).wf(),
        ensures
            final(self).wf(),
            models(final(self).clipboard@) == keep_sel(old(self).scene(), old(self).selection()),
            *final(self) == (Canvas { clipboard: final(self).clipboard, ..*old(self) }),
    {
        self.clipboard = crate::history::with_ids(&self.elements, &self.selected_ids);
        proof {
            crate::history::lemma_keep_issued(old(self).scene(), old(self).selection(), self.next_id);
            if let Some(c) = &self.current_element {
                crate::history::lemma_keep_keeps_absent(old(self).scene(), old(self).selection(), c.id);
            }
        }
    }

    /// Pastes the clipboard: copies shifted by the paste offset get a block
    /// of new ids, are appended to the scene, become the selection and the
    /// new clipboard (so that the next paste lands further on), and are
    /// recorded for undo (the redo history is dropped). Nothing happens with
    /// an empty clipboard, when the ids would run out, or when a copy would
    /// leave the coordinate range.
    pub fn paste(&mut self)
        requires
            old(self).wf(),
        ensures
            final(self).wf(),
            ({
                let o = *old(self);
                let clip = models(o.clipboard@);
                let p = pasted(clip, o.next_id);
                if clip.len() > 0 && o.next_id + clip.len() <= u64::MAX
                    && movable(clip, ids_of(clip), PASTE_OFFSET as int, PASTE_OFFSET as int) {
                    &&& final(self).scene() == o.scene() + p
                    &&& models(final(self).clipboard@) == p
                    &&& final(self).selection() == ids_of(p)
                    &&& final(self).next_id == o.next_id + clip.len()
                    &&& final(self).undo_log() == o.undo_log().push(ActionModel::Paste(p))
                    &&& final(self).redo_log().len() == 0
                    &&& final(self).current_element == o.current_element
                } else {
                    *final(self) == o
                }
            }),
    {
        let n = self.clipboard.len();
        if n == 0 || self.next_id > u64::MAX - n as u64 {
            return;
        }
        let ghost clip = models(self.clipboard@);
        proof {
            assert forall|j: int| 0 <= j < self.clipboard@.len() implies clip[j] == (#[trigger] self.clipboard@[j])@ by {}
        }
        let all_ids = crate::history::id_list(&self.clipboard);
        if !crate::history::can_translate_ids(&self.clipboard, &all_ids, PASTE_OFFSET, PASTE_OFFSET) {
            proof {
                let j = choose|j: int| 0 <= j < self.clipboard@.len() && id_set(all_ids@).contains(self.clipboard@[j].id) && !(#[trigger] self.clipboard@[j])@.shape.can_move(PASTE_OFFSET as int, PASTE_OFFSET as int);
                assert(clip[j] == self.clipboard@[j]@);
            }
            return;
        }
        let start = self.next_id;
        let mut copies: Vec<Element> = Vec::new();
        let mut i: usize = 0;
        while i < n
            invariant
                n == self.clipboard@.len(),
                i <= n,
                clip == models(self.clipboard@),
                all_issued(clip, start),
                start == old(self).next_id,
                start + n <= u64::MAX,
                id_set(all_ids@) == ids_of(clip),
                forall|j: int| 0 <= j < n && id_set(all_ids@).contains(self.clipboard@[j].id) ==> (#[trigger] self.clipboard@[j])@.shape.can_move(PASTE_OFFSET as int, PASTE_OFFSET as int),
                forall|j: int| 0 <= j < n ==> clip[j] == (#[trigger] self.clipboard@[j])@,
                copies@.len() == i,
                forall|j: int| 0 <= j < i ==> (#[trigger] copies@[j])@ == pasted(clip, start)[j] && copies@[j]@.wf(),
            decreases n - i,
        {
            let mut e = self.clipboard[i].clone();
            proof {
                assert(clip[i as int].id == self.clipboard@[i as int].id);
                assert(ids_of(clip).contains(clip[i as int].id));
            }
            e.id = start + i as u64;
            e.translate(PASTE_OFFSET, PASTE_OFFSET);
            copies.push(e);
            i = i + 1;
        }
        let ghost p = pasted(clip, start);
        proof {
            assert(models(copies@) =~= p);
        }
        self.next_id = start + n as u64;
        let ids = crate::history::id_list(&copies);
        let mut k: usize = 0;
        let ghost base = self.scene();
        let ghost pre = *self;
        while k < n
            invariant
                k <= n,
                *self == (Canvas { elements: self.elements, ..pre }),
                copies@.len() == n,
                models(copies@) == p,
                models(self.elements@) == base + p.take(k as int),
            decreases n - k,
        {
            let c = copies[k].clone();
            let ghost prev = self.elements@;
            self.elements.push(c);
            k = k + 1;
            proof {
                assert(models(copies@)[k - 1] == copies@[k - 1]@);
                assert(models(self.elements@) =~= models(prev).push(c@));
                assert(p.take(k as int) =~= p.take(k - 1).push(p[k - 1]));
                assert(models(self.elements@) =~= base + p.take(k as int));
            }
        }
        proof {
            assert(p.take(n as int) =~= p);
        }
        let record = crate::history::copy_all(&copies);
        assert(models(record@) == p);
        self.undo_stack.push(Action::PasteElements { elements: record });
        self.redo_stack.clear();
        self.clipboard = copies;
        self.selected_ids = ids;
        self.needs_render = true;
        proof {
            assert(self.undo_log() =~= old(self).undo_log().push(ActionModel::Paste(p)));
            assert(self.redo_log() =~= Seq::<ActionModel>::empty());
            assert forall|a: int, b: int| 0 <= a < self.selected_ids@.len() && 0 <= b < self.selected_ids@.len() && a != b implies self.selected_ids@[a] != self.selected_ids@[b] by {
                assert(self.selected_ids@[a] == copies@[a].id);
                assert(copies@[a]@ == p[a]);
                assert(copies@[b]@ == p[b]);
            }
            assert forall|j: int| 0 <= j < self.scene().len() implies (#[trigger] self.scene()[j]).wf() && self.scene()[j].id < self.next_id by {
                if j >= base.len() {
                    assert(self.scene()[j] == p[j - base.len()]);
                    assert(copies@[j - base.len()]@ == p[j - base.len()]);
                } else {
                    assert(self.scene()[j] == base[j]);
                    assert(base == old(self).scene());
                }
            }
            assert forall|j: int| 0 <= j < n implies (#[trigger] models(self.clipboard@)[j]).wf() && models(self.clipboard@)[j].id < self.next_id by {
                assert(copies@[j]@ == p[j]);
            }
            assert(movable(clip, ids_of(clip), PASTE_OFFSET as int, PASTE_OFFSET as int)) by {
                assert forall|j: int| 0 <= j < clip.len() && ids_of(clip).contains(clip[j].id) implies (#[trigger] clip[j]).shape.can_move(PASTE_OFFSET as int, PASTE_OFFSET as int) by {
                    assert(clip[j] == old(self).clipboard@[j]@);
                    assert(id_set(all_ids@).contains(old(self).clipboard@[j].id));
                }
            }
        }
    }

    /// Deletes the selected elements, recording each with its index so that
    /// undo can put it back in place (nothing is recorded when nothing was
    /// deleted); the selection is cleared.
    pub fn delete_selected(&mut self)
        requires
            old(self).wf(),
        ensures
            final(self).wf(),
            final(self).scene() == remove_sel(old(self).scene(), old(self).selection()),
            final(self).selection() == Set::<u64>::empty(),
            final(self).next_id == old(self).next_id,
            final(self).current_element == old(self).current_element,
            deleted_list(old(self).scene(), old(self).selection()).len() > 0 ==> {
                &&& final(self).undo_log() == old(self).undo_log().push(
                    ActionModel::Delete(deleted_list(old(self).scene(), old(self).selection())),
                )
                &&& final(self).redo_log().len() == 0
            },
            deleted_list(old(self).scene(), old(self).selection()).len() == 0 ==> {
                &&& final(self).undo_log() == old(self).undo_log()
                &&& final(self).redo_log() == old(self).redo_log()
            },
    {
        let deleted = crate::history::placed_with_ids(&self.elements, &self.selected_ids);
        proof {
            crate::history::lemma_deleted_from(old(self).scene(), old(self).selection());
            crate::history::lemma_remove_issued(old(self).scene(), old(self).selection(), self.next_id);
            if let Some(c) = &self.current_element {
                crate::history::lemma_remove_keeps_absent(old(self).scene(), old(self).selection(), c.id);
                crate::history::lemma_deleted_keeps_absent(old(self).scene(), old(self).selection(), c.id);
            }
        }
        if deleted.len() > 0 {
            let ghost list = crate::history::placed_models(deleted@);
            self.undo_stack.push(Action::DeleteElements { elements: deleted });
            self.redo_stack.clear();
            proof {
                assert(self.undo_log() =~= old(self).undo_log().push(ActionModel::Delete(list)));
                assert(self.redo_log() =~= Seq::<ActionModel>::empty());
                if let Some(c) = &self.current_element {
                    assert forall|j: int| 0 <= j < self.undo_stack@.len() implies action_absent((#[trigger] self.undo_stack@[j])@, c.id) by {
                        if j < old(self).undo_stack@.len() {
                            assert(self.undo_stack@[j] == old(self).undo_stack@[j]);
                        }
                    }
                }
            }
        } else {
            proof {
                assert(crate::history::placed_models(deleted@).len() == 0);
            }
        }
        self.elements = crate::history::without_ids(&self.elements, &self.selected_ids);
        self.selected_ids = Vec::new();
        self.needs_render = true;
        assert(self.selection() =~= Set::<u64>::empty());
    }

    pub fn can_undo(&self) -> (r: bool)
        ensures
            r == (self.undo_log().len() > 0),
    {
        self.undo_stack.len() > 0
    }

    pub fn can_redo(&self) -> (r: bool)
        ensures
            r == (self.redo_log().len() > 0),
    {
        self.redo_stack.len() > 0
    }

    /// Undoes the last recorded action (see `undo_effect`) and moves it onto
    /// the redo history; the selection is cleared. Nothing happens when there
    /// is nothing to undo.
    pub fn undo(&mut self)
        requires
            old(self).wf(),
        ensures
            final(self).wf(),
            old(self).undo_log().len() == 0 ==> *final(self) == *old(self),
            old(self).undo_log().len() > 0 ==> {
                let a = old(self).undo_log().last();
                &&& final(self).scene() == undo_effect(old(self).scene(), a)
                &&& final(self).undo_log() == old(self).undo_log().drop_last()
                &&& final(self).redo_log() == old(self).redo_log().push(a)
                &&& final(self).selection() == Set::<u64>::empty()
                &&& *final(self) == (Canvas {
                    elements: final(self).elements,
                    undo_stack: final(self).undo_stack,
                    redo_stack: final(self).redo_stack,
                    selected_ids: final(self).selected_ids,
                    needs_render: true,
                    ..*old(self)
                })
            },
    {
        if self.undo_stack.len() == 0 {
            return;
        }
        let action = self.undo_stack.pop().unwrap();
        proof {
            assert(self.undo_log() =~= old(self).undo_log().drop_last());
            assert(old(self).undo_stack@[old(self).undo_stack@.len() - 1] == action);
        }
        let ghost s = self.scene();
        match &action {
            Action::AddElement { element } => {
                let ids = vec![element.id];
                proof {
                    assert(id_set(ids@) =~= set![element.id]);
                    crate::history::lemma_remove_issued(s, set![element.id], self.next_id);
                }
                self.elements = crate::history::without_ids(&self.elements, &ids);
            },
            Action::DeleteElements { elements } => {
                proof {
                    crate::history::lemma_reinsert_issued(s, crate::history::placed_models(elements@), self.next_id);
                }
                crate::history::reinsert_all(&mut self.elements, elements);
            },
            Action::MoveElements { ids, dx, dy } => {
                proof {
                    crate::history::lemma_translate_issued(s, id_set(ids@), -dx, -dy, self.next_id);
                }
                crate::history::translate_ids(&mut self.elements, ids, -*dx, -*dy);
            },
            Action::PasteElements { elements } => {
                let ids = crate::history::id_list(elements);
                proof {
                    crate::history::lemma_remove_issued(s, id_set(ids@), self.next_id);
                }
                self.elements = crate::history::without_ids(&self.elements, &ids);
            },
            Action::ClearAll { elements } => {
                self.elements = crate::history::copy_all(elements);
            },
        }
        self.redo_stack.push(action);
        self.selected_ids = Vec::new();
        self.needs_render = true;
        proof {
            assert(self.redo_log() =~= old(self).redo_log().push(action@));
            assert(self.selection() =~= Set::<u64>::empty());
            if let Some(c) = &self.current_element {
                crate::history::lemma_effects_keep_absent(s, action@, c.id);
                assert forall|j: int| 0 <= j < self.redo_stack@.len() implies action_absent((#[trigger] self.redo_stack@[j])@, c.id) by {
                    if j < old(self).redo_stack@.len() {
                        assert(self.redo_stack@[j] == old(self).redo_stack@[j]);
                    }
                }
                assert forall|j: int| 0 <= j < self.undo_stack@.len() implies action_absent((#[trigger] self.undo_stack@[j])@, c.id) by {
                    assert(self.undo_stack@[j] == old(self).undo_stack@[j]);
                }
            }
        }
    }

    /// Redoes the last undone action (see `redo_effect`) and moves it back
    /// onto the undo history; the selection is cleared. Nothing happens when
    /// there is nothing to redo.
    pub fn redo(&mut self)
        requires
            old(self).wf(),
        ensures
            final(self).wf(),
            old(self).redo_log().len() == 0 ==> *final(self) == *old(self),
            old(self).redo_log().len() > 0 ==> {
                let a = old(self).redo_log().last();
                &&& final(self).scene() == redo_effect(old(self).scene(), a)
                &&& final(self).redo_log() == old(self).redo_log().drop_last()
                &&& final(self).undo_log() == old(self).undo_log().push(a)
                &&& final(self).selection() == Set::<u64>::empty()
                &&& *final(self) == (Canvas {
                    elements: final(self).elements,
                    undo_stack: final(self).undo_stack,
                    redo_stack: final(self).redo_stack,
                    selected_ids: final(self).selected_ids,
                    needs_render: true,
                    ..*old(self)
                })
            },
    {
        if self.redo_stack.len() == 0 {
            return;
        }
        let action = self.redo_stack.pop().unwrap();
        proof {
            assert(self.redo_log() =~= old(self).redo_log().drop_last());
            assert(old(self).redo_stack@[old(self).redo_stack@.len() - 1] == action);
        }
        let ghost s = self.scene();
        match &action {
            Action::AddElement { element } => {
                let e = element.clone();
                let ghost prev = self.elements@;
                self.elements.push(e);
                assert(models(self.elements@) =~= models(prev).push(e@));
            },
            Action::DeleteElements { elements } => {
                let ids = crate::history::placed_id_list(elements);
                proof {
                    crate::history::lemma_remove_issued(s, id_set(ids@), self.next_id);
                }
                self.elements = crate::history::without_ids(&self.elements, &ids);
            },
            Action::MoveElements { ids, dx, dy } => {
                proof {
                    crate::history::lemma_translate_issued(s, id_set(ids@), *dx as int, *dy as int, self.next_id);
                }
                crate::history::translate_ids(&mut self.elements, ids, *dx, *dy);
            },
            Action::PasteElements { elements } => {
                let mut k: usize = 0;
                let ghost pre = *self;
                let ghost es = models(elements@);
                while k < elements.len()
                    invariant
                        k <= elements.len(),
                        es == models(elements@),
                        *self == (Canvas { elements: self.elements, ..pre }),
                        models(self.elements@) == s + es.take(k as int),
                    decreases elements.len() - k,
                {
                    let c = elements[k].clone();
                    let ghost prev = self.elements@;
                    self.elements.push(c);
                    k = k + 1;
                    proof {
                        assert(es[k - 1] == elements@[k - 1]@);
                        assert(models(self.elements@) =~= models(prev).push(c@));
                        assert(es.take(k as int) =~= es.take(k - 1).push(es[k - 1]));
                    }
                }
                proof {
                    assert(es.take(elements.len() as int) =~= es);
                    let r = self.scene();
                    assert forall|j: int| 0 <= j < r.len() implies (#[trigger] r[j]).wf() && r[j].id < self.next_id by {
                        if j >= s.len() {
                            assert(r[j] == es[j - s.len()]);
                        } else {
                            assert(r[j] == s[j]);
                        }
                    }
                }
            },
            Action::ClearAll { elements } => {
                self.elements = Vec::new();
                assert(self.scene() =~= Seq::<ElementModel>::empty());
            },
        }
        self.undo_stack.push(action);
        self.selected_ids = Vec::new();
        self.needs_render = true;
        proof {
            assert(self.undo_log() =~= old(self).undo_log().push(action@));
            assert(self.selection() =~= Set::<u64>::empty());
            if let Some(c) = &self.current_element {
                crate::history::lemma_effects_keep_absent(s, action@, c.id);
                assert forall|j: int| 0 <= j < self.undo_stack@.len() implies action_absent((#[trigger] self.undo_stack@[j])@, c.id) by {
                    if j < old(self).undo_stack@.len() {
                        assert(self.undo_stack@[j] == old(self).undo_stack@[j]);
                    }
                }
                assert forall|j: int| 0 <= j < self.redo_stack@.len() implies action_absent((#[trigger] self.redo_stack@[j])@, c.id) by {
                    assert(self.redo_stack@[j] == old(self).redo_stack@[j]);
                }
            }
        }
    }

    /// Starts a rubber-band drag at screen position `(sx, sy)`; a position
    /// out of range is ignored.
    pub fn start_rubber_band(&mut self, sx: i64, sy: i64)
        requires
            old(self).wf(),
        ensures
            final(self).wf(),
            screen_ok(sx as int) && screen_ok(sy as int) ==> *final(self) == (Canvas {
                is_rubber_band: true,
                rubber_band_start_x: sx,
                rubber_band_start_y: sy,
                rubber_band_end_x: sx,
                rubber_band_end_y: sy,
                ..*old(self)
            }),
            !(screen_ok(sx as int) && screen_ok(sy as int)) ==> *final(self) == *old(self),
    {
        if !screen_point_ok(sx, sy) {
            return;
        }
        self.is_rubber_band = true;
        self.rubber_band_start_x = sx;
        self.rubber_band_start_y = sy;
        self.rubber_band_end_x = sx;
        self.rubber_band_end_y = sy;
    }

    /// Moves the far corner of the rubber band; ignored when no band is
    /// being dragged or the position is out of range.
    pub fn update_rubber_band(&mut self, sx: i64, sy: i64)
        requires
            old(self).wf(),
        ensures
            final(self).wf(),
            old(self).is_rubber_band && screen_ok(sx as int) && screen_ok(sy as int) ==> *final(self) == (Canvas {
                rubber_band_end_x: sx,
                rubber_band_end_y: sy,
                needs_render: true,
                ..*old(self)
            }),
            !(old(self).is_rubber_band && screen_ok(sx as int) && screen_ok(sy as int)) ==> *final(self) == *old(self),
    {
        if !self.is_rubber_band || !screen_point_ok(sx, sy) {
            return;
        }
        self.rubber_band_end_x = sx;
        self.rubber_band_end_y = sy;
        self.needs_render = true;
    }

    /// Ends the rubber band: its two corners, taken to world coordinates,
    /// span the box that `rubber_band_select` selects with.
    pub fn finish_rubber_band(&mut self, shift: bool)
        requires
            old(self).wf(),
        ensures
            final(self).wf(),
            !old(self).is_rubber_band ==> *final(self) == *old(self),
            old(self).is_rubber_band ==> {
                let o = *old(self);
                let rect = band_rect(o.camera, o.rubber_band_start_x as int, o.rubber_band_start_y as int, o.rubber_band_end_x as int, o.rubber_band_end_y as int);
                &&& final(self).selection() == if shift {
                    o.selection().union(band_ids(o.scene(), rect))
                } else {
                    band_ids(o.scene(), rect)
                }
                &&& *final(self) == (Canvas {
                    is_rubber_band: false,
                    selected_ids: final(self).selected_ids,
                    needs_render: true,
                    ..o
                })
            },
    {
        if !self.is_rubber_band {
            return;
        }
        self.is_rubber_band = false;
        let ax = self.camera.screen_to_world_x(self.rubber_band_start_x);
        let ay = self.camera.screen_to_world_y(self.rubber_band_start_y);
        let bx = self.camera.screen_to_world_x(self.rubber_band_end_x);
        let by = self.camera.screen_to_world_y(self.rubber_band_end_y);
        let rect = BoundingBox {
            min_x: if ax <= bx { ax } else { bx },
            min_y: if ay <= by { ay } else { by },
            max_x: if ax >= bx { ax } else { bx },
            max_y: if ay >= by { ay } else { by },
        };
        self.rubber_band_select(rect, shift);
    }

    /// Selects every element whose box meets `rect` (touching counts); with
    /// `additive` the selection grows, otherwise it is replaced.
    pub fn rubber_band_select(&mut self, rect: BoundingBox, additive: bool)
        requires
            old(self).wf(),
        ensures
            final(self).wf(),
            final(self).selection() == if additive {
                old(self).selection().union(band_ids(old(self).scene(), rect))
            } else {
                band_ids(old(self).scene(), rect)
            },
            *final(self) == (Canvas { selected_ids: final(self).selected_ids, needs_render: true, ..*old(self) }),
    {
        if !additive {
            self.selected_ids = Vec::new();
        }
        let ghost base = self.selection();
        let ghost s = self.scene();
        let ghost pre = *self;
        let mut i: usize = 0;
        while i < self.elements.len()
            invariant
                i <= self.elements.len(),
                *self == (Canvas { selected_ids: self.selected_ids, ..pre }),
                s == self.scene(),
                all_issued(s, self.next_id),
                self.selected_ids@.no_duplicates(),
                self.selection() == base.union(band_ids(s.take(i as int), rect)),
            decreases self.elements.len() - i,
        {
            assert(s[i as int] == self.elements@[i as int]@);
            let bb = self.elements[i].bounding_box();
            let id = self.elements[i].id;
            let meets = match bb {
                Some(b) => rect.intersects(&b),
                None => false,
            };
            let ghost before = self.selection();
            proof {
                assert(bb == s[i as int].bounds());
                assert(before == base.union(band_ids(s.take(i as int), rect)));
            }
            let present = crate::history::contains_id(&self.selected_ids, id);
            let ghost pre_ids = self.selected_ids@;
            if meets && !present {
                let ghost prev = self.selected_ids@;
                self.selected_ids.push(id);
                proof {
                    assert forall|a: int, b: int| 0 <= a < self.selected_ids@.len() && 0 <= b < self.selected_ids@.len() && a != b implies self.selected_ids@[a] != self.selected_ids@[b] by {
                        if a < prev.len() && b < prev.len() {
                            assert(prev[a] != prev[b]);
                        } else if a < prev.len() {
                            assert(prev.contains(self.selected_ids@[a]));
                        } else {
                            assert(prev.contains(self.selected_ids@[b]));
                        }
                    }
                    assert(self.selected_ids@[prev.len() as int] == id);
                    assert(self.selected_ids@.contains(id));
                    assert(self.selection().contains(id));
                    assert forall|k: u64| #[trigger] self.selection().contains(k) <==> (before.contains(k) || k == id) by {
                        if before.contains(k) {
                            let j = choose|j: int| 0 <= j < prev.len() && prev[j] == k;
                            assert(self.selected_ids@[j] == k);
                        }
                        if k == id {
                            assert(self.selected_ids@[prev.len() as int] == k);
                        }
                        if self.selection().contains(k) {
                            let j = choose|j: int| 0 <= j < self.selected_ids@.len() && self.selected_ids@[j] == k;
                            if j < prev.len() {
                                assert(prev[j] == k);
                            }
                        }
                    }
                }
            }
            proof {
                if meets && !present {
                    assert(self.selection().contains(id));
                } else {
                    assert(self.selected_ids@ == pre_ids);
                    assert(self.selection() == before);
                }
                if meets && present {
                    assert(self.selected_ids@.contains(id));
                    assert(self.selection().contains(id));
                }
                let t = s.take(i as int);
                let t1 = s.take(i + 1);
                assert forall|k: u64| self.selection().contains(k) <==> base.union(band_ids(t1, rect)).contains(k) by {
                    if band_ids(t1, rect).contains(k) {
                        let j = choose|j: int| 0 <= j < t1.len() && (#[trigger] t1[j]).id == k && (t1[j].bounds() matches Some(b) && rect.overlaps(&b));
                        if j < i {
                            assert(t[j] == t1[j]);
                            assert(band_ids(t, rect).contains(k));
                        } else {
                            assert(t1[j] == s[i as int]);
                        }
                    }
                    if band_ids(t, rect).contains(k) {
                        let j = choose|j: int| 0 <= j < t.len() && (#[trigger] t[j]).id == k && (t[j].bounds() matches Some(b) && rect.overlaps(&b));
                        assert(t1[j] == t[j]);
                    }
                    if meets {
                        assert(t1[i as int] == s[i as int]);
                        if k == id {
                            assert(band_ids(t1, rect).contains(k));
                            if present {
                                assert(before.contains(id));
                            }
                            assert(self.selection().contains(k));
                        }
                    }
                    if self.selection().contains(k) {
                        if !before.contains(k) {
                            assert(meets && !present && k == id);
                            assert(t1[i as int] == s[i as int]);
                            assert(band_ids(t1, rect).contains(k));
                        }
                    }
                }
                assert(self.selection() =~= base.union(band_ids(t1, rect)));
            }
            i = i + 1;
        }
        proof {
            assert(s.take(s.len() as int) =~= s);
            if !additive {
                assert(base =~= Set::<u64>::empty());
                assert(self.selection() =~= band_ids(s, rect));
            }
        }
        self.needs_render = true;
    }

    /// World x coordinate under screen position `sx`.
    pub fn screen_to_world_x(&self, sx: i64) -> (r: i64)
        requires
            self.wf(),
        ensures
            r == to_world(sx as int, self.camera.zoom as int, self.camera.pan_x as int),
    {
        self.camera.screen_to_world_x(sx)
    }

    /// World y coordinate under screen position `sy`.
    pub fn screen_to_world_y(&self, sy: i64) -> (r: i64)
        requires
            self.wf(),
        ensures
            r == to_world(sy as int, self.camera.zoom as int, self.camera.pan_y as int),
    {
        self.camera.screen_to_world_y(sy)
    }

    /// One wheel step of zoom around the cursor; a cursor position out of
    /// range is ignored.
    pub fn zoom_at(&mut self, screen_x: i64, screen_y: i64, delta: i64)
        requires
            old(self).wf(),
        ensures
            final(self).wf(),
            screen_ok(screen_x as int) && screen_ok(screen_y as int) ==> *final(self) == (Canvas {
                camera: zoomed_around(old(self).camera, screen_x as int, screen_y as int, stepped_zoom(old(self).camera.zoom as int, delta as int)),
                needs_render: true,
                ..*old(self)
            }),
            !(screen_ok(screen_x as int) && screen_ok(screen_y as int)) ==> *final(self) == *old(self),
            to_world(screen_x as int, final(self).camera.zoom as int, final(self).camera.pan_x as int) == to_world(screen_x as int, old(self).camera.zoom as int, old(self).camera.pan_x as int),
            to_world(screen_y as int, final(self).camera.zoom as int, final(self).camera.pan_y as int) == to_world(screen_y as int, old(self).camera.zoom as int, old(self).camera.pan_y as int),
    {
        if !screen_point_ok(screen_x, screen_y) {
            return;
        }
        self.camera.zoom_at(screen_x, screen_y, delta);
        self.needs_render = true;
    }

    /// Sets the zoom (in thousandths, clamped to [0.1, 10]) around the centre
    /// of the viewport.
    pub fn set_zoom(&mut self, new_zoom: i64)
        requires
            old(self).wf(),
        ensures
            final(self).wf(),
            *final(self) == (Canvas {
                camera: zoomed_around(old(self).camera, old(self).camera.view_width / 2, old(self).camera.view_height / 2, clamp_zoom(new_zoom as int)),
                needs_render: true,
                ..*old(self)
            }),
    {
        self.camera.set_zoom(new_zoom);
        self.needs_render = true;
    }

    /// The zoom, in thousandths.
    pub fn get_zoom(&self) -> (r: i64)
        ensures
            r == self.camera.zoom,
    {
        self.camera.zoom
    }

    /// Starts a pan drag at screen position `(sx, sy)`; a position out of
    /// range is ignored.
    pub fn start_pan(&mut self, sx: i64, sy: i64)
        requires
            old(self).wf(),
        ensures
            final(self).wf(),
            screen_ok(sx as int) && screen_ok(sy as int) ==> *final(self) == (Canvas {
                camera: Camera {
                    is_panning: true,
                    pan_start_x: sx,
                    pan_start_y: sy,
                    pan_origin_x: old(self).camera.pan_x,
                    pan_origin_y: old(self).camera.pan_y,
                    ..old(self).camera
                },
                ..*old(self)
            }),
            !(screen_ok(sx as int) && screen_ok(sy as int)) ==> *final(self) == *old(self),
    {
        if !screen_point_ok(sx, sy) {
            return;
        }
        self.camera.start_pan(sx, sy);
    }

    /// Pans to follow the drag: the pan at the start of the drag plus the
    /// whole drag distance. Ignored when not panning or out of range.
    pub fn update_pan(&mut self, sx: i64, sy: i64)
        requires
            old(self).wf(),
        ensures
            final(self).wf(),
            old(self).camera.is_panning && screen_ok(sx as int) && screen_ok(sy as int) ==> *final(self) == (Canvas {
                camera: Camera {
                    pan_x: crate::camera::clamp_pan(old(self).camera.pan_origin_x + (sx - old(self).camera.pan_start_x)) as i64,
                    pan_y: crate::camera::clamp_pan(old(self).camera.pan_origin_y + (sy - old(self).camera.pan_start_y)) as i64,
                    ..old(self).camera
                },
                needs_render: true,
                ..*old(self)
            }),
            !(old(self).camera.is_panning && screen_ok(sx as int) && screen_ok(sy as int)) ==> *final(self) == *old(self),
    {
        if !self.camera.is_panning || !screen_point_ok(sx, sy) {
            return;
        }
        self.camera.update_pan(sx, sy);
        self.needs_render = true;
    }

    pub fn stop_pan(&mut self)
        requires
            old(self).wf(),
        ensures
            final(self).wf(),
            *final(self) == (Canvas { camera: Camera { is_panning: false, ..old(self).camera }, ..*old(self) }),
    {
        self.camera.stop_pan();
    }

    pub fn get_is_panning(&self) -> (r: bool)
        ensures
            r == self.camera.is_panning,
    {
        self.camera.is_panning
    }

    pub fn get_is_rubber_band(&self) -> (r: bool)
        ensures
            r == self.is_rubber_band,
    {
        self.is_rubber_band
    }

    /// Frames the whole scene in the viewport (see `fitted`).
    pub fn fit_to_view(&mut self)
        requires
            old(self).wf(),
        ensures
            final(self).wf(),
            *final(self) == (Canvas {
                camera: fitted(old(self).camera, union_box(old(self).scene())),
                needs_render: true,
                ..*old(self)
            }),
    {
        let content = content_bounds(&self.elements);
        self.camera.fit_to(content);
        self.needs_render = true;
    }

    /// Back to zoom 1 and no pan.
    pub fn reset_view(&mut self)
        requires
            old(self).wf(),
        ensures
            final(self).wf(),
            *final(self) == (Canvas {
                camera: Camera { zoom: crate::camera::ZOOM_ONE, pan_x: 0, pan_y: 0, ..old(self).camera },
                needs_render: true,
                ..*old(self)
            }),
    {
        self.camera.reset_view();
        self.needs_render = true;
    }
}

/// The smallest box holding the boxes of all elements; none when no
/// element has a box.
pub open spec fn union_box(s: Seq<ElementModel>) -> Option<BoundingBox>
    decreases s.len(),
{
    if s.len() == 0 {
        None
    } else {
        let t = union_box(s.drop_last());
        match (t, s.last().bounds()) {
            (None, b) => b,
            (Some(a), None) => Some(a),
            (Some(a), Some(b)) => Some(merged(a, b)),
        }
    }
}

/// The smallest box holding both boxes.
pub open spec fn merged(a: BoundingBox, b: BoundingBox) -> BoundingBox {
    BoundingBox {
        min_x: if a.min_x <= b.min_x { a.min_x } else { b.min_x },
        min_y: if a.min_y <= b.min_y { a.min_y } else { b.min_y },
        max_x: if a.max_x >= b.max_x { a.max_x } else { b.max_x },
        max_y: if a.max_y >= b.max_y { a.max_y } else { b.max_y },
    }
}

/// The ids of the elements whose box meets `rect`.
pub open spec fn band_ids(s: Seq<ElementModel>, rect: BoundingBox) -> Set<u64> {
    Set::new(
        |id: u64|
            exists|j: int|
                0 <= j < s.len() && (#[trigger] s[j]).id == id && (s[j].bounds() matches Some(b)
                    && rect.overlaps(&b)),
    )
}

/// The world box spanned by two screen corners.
pub open spec fn band_rect(c: Camera, sx: int, sy: int, ex: int, ey: int) -> BoundingBox {
    let ax = to_world(sx, c.zoom as int, c.pan_x as int);
    let ay = to_world(sy, c.zoom as int, c.pan_y as int);
    let bx = to_world(ex, c.zoom as int, c.pan_x as int);
    let by = to_world(ey, c.zoom as int, c.pan_y as int);
    BoundingBox {
        min_x: (if ax <= bx { ax } else { bx }) as i64,
        min_y: (if ay <= by { ay } else { by }) as i64,
        max_x: (if ax >= bx { ax } else { bx }) as i64,
        max_y: (if ay >= by { ay } else { by }) as i64,
    }
}

/// Every selected element can shift by `(dx, dy)` and stay in range.
pub open spec fn movable(s: Seq<ElementModel>, sel: Set<u64>, dx: int, dy: int) -> bool {
    forall|j: int| 0 <= j < s.len() && sel.contains(s[j].id) ==> (#[trigger] s[j]).shape.can_move(dx, dy)
}

/// The copies a paste makes: each clipboard element shifted by the paste
/// offset, with ids counted up from `start` in clipboard order.
pub open spec fn pasted(clip: Seq<ElementModel>, start: u64) -> Seq<ElementModel> {
    Seq::new(
        clip.len(),
        |i: int| ElementModel { id: (start + i) as u64, ..clip[i].moved(PASTE_OFFSET as int, PASTE_OFFSET as int) },
    )
}

/// The id of the topmost (last painted) element whose outline `p` hits.
pub open spec fn topmost_hit(s: Seq<ElementModel>, p: Point) -> Option<u64>
    decreases s.len(),
{
    if s.len() == 0 {
        None
    } else if s.last().hits(p) {
        Some(s.last().id)
    } else {
        topmost_hit(s.drop_last(), p)
    }
}

/// What a click at `(x, y)` picks: the topmost element hit, and nothing for
/// a point out of range.
pub open spec fn picked(s: Seq<ElementModel>, x: int, y: int) -> Option<u64> {
    if pt_in_range(x, y) {
        topmost_hit(s, pt(x, y))
    } else {
        None
    }
}

/// A copy of the ids.
fn copy_ids(ids: &Vec<u64>) -> (r: Vec<u64>)
    ensures
        r@ == ids@,
{
    let mut out: Vec<u64> = Vec::new();
    let mut i: usize = 0;
    while i < ids.len()
        invariant
            i <= ids.len(),
            out@ == ids@.take(i as int),
        decreases ids.len() - i,
    {
        out.push(ids[i]);
        i = i + 1;
        assert(out@ =~= ids@.take(i as int));
    }
    assert(ids@.take(ids.len() as int) =~= ids@);
    out
}

/// The position of `id` in `ids`.
fn find_id(ids: &Vec<u64>, id: u64) -> (r: Option<usize>)
    ensures
        r matches Some(i) ==> i < ids@.len() && ids@[i as int] == id,
        r is None ==> !ids@.contains(id),
{
    let mut i: usize = 0;
    while i < ids.len()
        invariant
            i <= ids.len(),
            forall|j: int| 0 <= j < i ==> ids@[j] != id,
        decreases ids.len() - i,
    {
        if ids[i] == id {
            return Some(i);
        }
        i = i + 1;
    }
    None
}

/// Adds `id` to the ids when absent, removes it when present.
fn toggle_id(ids: &mut Vec<u64>, id: u64)
    requires
        old(ids)@.no_duplicates(),
    ensures
        final(ids)@.no_duplicates(),
        crate::history::id_set(final(ids)@) == if crate::history::id_set(old(ids)@).contains(id) {
            crate::history::id_set(old(ids)@).remove(id)
        } else {
            crate::history::id_set(old(ids)@).insert(id)
        },
{
    let ghost before = ids@;
    let found = find_id(ids, id);
    if let Some(i) = found {
        ids.remove(i);
        proof {
            let after = ids@;
            assert(after =~= before.remove(i as int));
            assert forall|j: int| 0 <= j < after.len() implies (#[trigger] after[j]) == if j < i { before[j] } else { before[j + 1] } by {}
            assert forall|k: u64| crate::history::id_set(after).contains(k) <==> (crate::history::id_set(before).contains(k) && k != id) by {
                if crate::history::id_set(before).contains(k) && k != id {
                    let j = choose|j: int| 0 <= j < before.len() && before[j] == k;
                    if j < i {
                        assert(after[j] == k);
                    } else {
                        assert(j != i);
                        assert(after[j - 1] == k);
                    }
                }
                if crate::history::id_set(after).contains(k) {
                    let j = choose|j: int| 0 <= j < after.len() && after[j] == k;
                    if j < i {
                        assert(before[j] == k);
                        assert(k != id);
                    } else {
                        assert(before[j + 1] == k);
                        assert(j + 1 != i);
                    }
                }
            }
            assert(crate::history::id_set(after) =~= crate::history::id_set(before).remove(id));
            assert(before[i as int] == id);
            assert(before.contains(id));
            assert(crate::history::id_set(before).contains(id));
            assert(crate::history::id_set(ids@) == crate::history::id_set(before).remove(id));
            assert(ids@.no_duplicates());
            assert forall|a: int, b: int| 0 <= a < after.len() && 0 <= b < after.len() && a != b implies after[a] != after[b] by {
                let a2 = if a < i { a } else { a + 1 };
                let b2 = if b < i { b } else { b + 1 };
                assert(after[a] == before[a2] && after[b] == before[b2]);
            }
        }
        return;
    }
    ids.push(id);
    proof {
        let after = ids@;
        assert(after =~= before.push(id));
        assert(!before.contains(id));
        assert(!crate::history::id_set(before).contains(id));
        assert forall|k: u64| crate::history::id_set(after).contains(k) <==> (crate::history::id_set(before).contains(k) || k == id) by {
            if crate::history::id_set(before).contains(k) {
                let j = choose|j: int| 0 <= j < before.len() && before[j] == k;
                assert(after[j] == k);
            }
            if k == id {
                assert(after[before.len() as int] == k);
            }
            if crate::history::id_set(after).contains(k) {
                let j = choose|j: int| 0 <= j < after.len() && after[j] == k;
                if j < before.len() {
                    assert(before[j] == k);
                }
            }
        }
        assert(crate::history::id_set(after) =~= crate::history::id_set(before).insert(id));
    }
}

/// The ids of the elements, each once.
fn unique_ids(v: &Vec<Element>) -> (r: Vec<u64>)
    ensures
        r@.no_duplicates(),
        crate::history::id_set(r@) == crate::history::ids_of(models(v@)),
{
    let mut out: Vec<u64> = Vec::new();
    let mut i: usize = 0;
    while i < v.len()
        invariant
            i <= v.len(),
            out@.no_duplicates(),
            forall|k: u64| out@.contains(k) <==> exists|j: int| 0 <= j < i && (#[trigger] v@[j]).id == k,
        decreases v.len() - i,
    {
        let id = v[i].id;
        let ghost prev = out@;
        if !crate::history::contains_id(&out, id) {
            out.push(id);
            assert(out@ == prev.push(id));
            assert forall|a: int, b: int| 0 <= a < out@.len() && 0 <= b < out@.len() && a != b implies out@[a] != out@[b] by {
                if a < prev.len() && b < prev.len() {
                } else if a < prev.len() {
                    assert(prev.contains(out@[a]));
                } else {
                    assert(prev.contains(out@[b]));
                }
            }
            assert forall|k: u64| prev.contains(k) implies out@.contains(k) by {
                let j = choose|j: int| 0 <= j < prev.len() && prev[j] == k;
                assert(out@[j] == k);
            }
            assert(out@[prev.len() as int] == id);
        }
        assert(out@.contains(id));
        assert(forall|k: u64| prev.contains(k) ==> out@.contains(k));
        proof {
            assert forall|k: u64| out@.contains(k) <==> exists|j: int| 0 <= j < i + 1 && (#[trigger] v@[j]).id == k by {
                if exists|j: int| 0 <= j < i + 1 && (#[trigger] v@[j]).id == k {
                    let j = choose|j: int| 0 <= j < i + 1 && (#[trigger] v@[j]).id == k;
                    if j < i {
                        assert(prev.contains(k));
                    }
                }
                if out@.contains(k) {
                    if prev.contains(k) {
                        let j = choose|j: int| 0 <= j < i && (#[trigger] v@[j]).id == k;
                        assert(0 <= j < i + 1 && v@[j].id == k);
                    } else {
                        let j = choose|j: int| 0 <= j < out@.len() && out@[j] == k;
                        assert(out@.len() == prev.len() + 1);
                        assert(j == prev.len());
                        assert(v@[i as int].id == k);
                    }
                }
            }
        }
        i = i + 1;
    }
    proof {
        let m = models(v@);
        assert forall|k: u64| crate::history::id_set(out@).contains(k) <==> crate::history::ids_of(m).contains(k) by {
            if crate::history::ids_of(m).contains(k) {
                let j = choose|j: int| 0 <= j < m.len() && (#[trigger] m[j]).id == k;
                assert(v@[j].id == k);
            }
            if out@.contains(k) {
                let j = choose|j: int| 0 <= j < v@.len() && (#[trigger] v@[j]).id == k;
                assert(m[j].id == k);
            }
        }
        assert(crate::history::id_set(out@) =~= crate::history::ids_of(m));
    }
    out
}

/// The smallest box holding the boxes of all elements.
pub fn content_bounds(v: &Vec<Element>) -> (r: Option<BoundingBox>)
    requires
        all_issued(models(v@), u64::MAX),
    ensures
        r == union_box(models(v@)),
        r matches Some(b) ==> b.wf() && box_ok(b),
{
    let ghost s = models(v@);
    let mut acc: Option<BoundingBox> = None;
    let mut i: usize = 0;
    while i < v.len()
        invariant
            i <= v.len(),
            s == models(v@),
            all_issued(s, u64::MAX),
            acc == union_box(s.take(i as int)),
            acc matches Some(b) ==> b.wf() && box_ok(b),
        decreases v.len() - i,
    {
        proof {
            assert(s.take(i + 1).drop_last() =~= s.take(i as int));
            assert(s[i as int] == v@[i as int]@);
        }
        let bb = v[i].bounding_box();
        acc = match (acc, bb) {
            (None, b) => b,
            (Some(a), None) => Some(a),
            (Some(a), Some(b)) => Some(
                BoundingBox {
                    min_x: if a.min_x <= b.min_x { a.min_x } else { b.min_x },
                    min_y: if a.min_y <= b.min_y { a.min_y } else { b.min_y },
                    max_x: if a.max_x >= b.max_x { a.max_x } else { b.max_x },
                    max_y: if a.max_y >= b.max_y { a.max_y } else { b.max_y },
                },
            ),
        };
        i = i + 1;
    }
    assert(s.take(v.len() as int) =~= s);
    acc
}

/// Whether `(sx, sy)` is an in-range screen position.
fn screen_point_ok(sx: i64, sy: i64) -> (r: bool)
    ensures
        r == (screen_ok(sx as int) && screen_ok(sy as int)),
{
    -SCREEN_LIMIT <= sx && sx <= SCREEN_LIMIT && -SCREEN_LIMIT <= sy && sy <= SCREEN_LIMIT
}

/// Whether `(x, y)` is an in-range world point.
fn point_ok(x: i64, y: i64) -> (r: bool)
    ensures
        r == pt_in_range(x as int, y as int),
{
    -COORD_LIMIT <= x && x <= COORD_LIMIT && -COORD_LIMIT <= y && y <= COORD_LIMIT
}

/// The tool that a name selects.
fn tool_from_name(name: &str) -> (r: ToolMode)
    ensures
        r == tool_named(name@),
{
    let n = String::from_str(name);
    if n == String::from_str("eraser") {
        ToolMode::Eraser
    } else if n == String::from_str("select") {
        ToolMode::Select
    } else if n == String::from_str("line") {
        ToolMode::Line
    } else if n == String::from_str("rect") {
        ToolMode::Rectangle
    } else if n == String::from_str("circle") {
        ToolMode::Circle
    } else {
        ToolMode::Pen
    }
}

} // verus!
