//! Export of the scene as an SVG document, numbers written in decimal.
use vstd::prelude::*;
use vstd::string::StringExecFns;
use crate::canvas::{content_bounds, union_box, Canvas};
use crate::element::{box_ok, Element, ElementModel, Shape, ShapeModel};
use crate::geometry::{BoundingBox, Point};
use crate::history::all_issued;

verus! {

/// Margin around the content in the exported view box, in world units.
pub const EXPORT_PADDING: i64 = 10;

/// The text of one decimal digit.
pub open spec fn digit_text(d: int) -> Seq<char> {
    if d == 0 {
        "0"@
    } else if d == 1 {
        "1"@
    } else if d == 2 {
        "2"@
    } else if d == 3 {
        "3"@
    } else if d == 4 {
        "4"@
    } else if d == 5 {
        "5"@
    } else if d == 6 {
        "6"@
    } else if d == 7 {
        "7"@
    } else if d == 8 {
        "8"@
    } else {
        "9"@
    }
}

/// The decimal digits of a natural number, most significant first.
pub open spec fn digits(n: nat) -> Seq<char>
    decreases n,
{
    if n < 10 {
        digit_text(n as int)
    } else {
        digits(n / 10) + digit_text((n % 10) as int)
    }
}

/// An integer in decimal, with a leading minus when negative.
pub open spec fn decimal(n: int) -> Seq<char> {
    if n < 0 {
        "-"@ + digits((-n) as nat)
    } else {
        digits(n as nat)
    }
}

fn digit_str(d: u64) -> (r: &'static str)
    requires
        d < 10,
    ensures
        r@ == digit_text(d as int),
{
    if d == 0 {
        "0"
    } else if d == 1 {
        "1"
    } else if d == 2 {
        "2"
    } else if d == 3 {
        "3"
    } else if d == 4 {
        "4"
    } else if d == 5 {
        "5"
    } else if d == 6 {
        "6"
    } else if d == 7 {
        "7"
    } else if d == 8 {
        "8"
    } else {
        "9"
    }
}

fn append_digits(out: &mut String, n: u64)
    ensures
        final(out)@ == old(out)@ + digits(n as nat),
    decreases n,
{
    if n >= 10 {
        append_digits(out, n / 10);
        out.append(digit_str(n % 10));
        assert(final(out)@ =~= old(out)@ + digits(n as nat));
    } else {
        out.append(digit_str(n));
    }
}

/// Appends `n` in decimal.
fn append_int(out: &mut String, n: i64)
    requires
        n > i64::MIN,
    ensures
        final(out)@ == old(out)@ + decimal(n as int),
{
    if n < 0 {
        out.append("-");
        append_digits(out, (-n) as u64);
        assert(final(out)@ =~= old(out)@ + decimal(n as int));
    } else {
        append_digits(out, n as u64);
    }
}

/// The path commands of a freehand shape: a move to the first point and a
/// line to each further one.
pub open spec fn path_text(prefix: Seq<char>, ps: Seq<Point>) -> Seq<char>
    decreases ps.len(),
{
    if ps.len() <= 1 {
        prefix + "M "@ + decimal(ps[0].x as int) + " "@ + decimal(ps[0].y as int)
    } else {
        path_text(prefix, ps.drop_last()) + " L "@ + decimal(ps.last().x as int) + " "@ + decimal(
            ps.last().y as int,
        )
    }
}

/// The stroke attributes that close every element.
pub open spec fn stroke_text(prefix: Seq<char>, e: ElementModel) -> Seq<char> {
    prefix + "\" stroke=\""@ + e.color + "\" stroke-width=\""@ + decimal(e.width)
}

/// One element as an SVG primitive; empty for a freehand shape with fewer
/// than two points.
pub open spec fn element_svg(e: ElementModel) -> Seq<char> {
    match e.shape {
        ShapeModel::Freehand(ps) => if ps.len() < 2 {
            Seq::empty()
        } else {
            stroke_text(path_text("<path d=\""@, ps), e)
                + "\" fill=\"none\" stroke-linecap=\"round\" stroke-linejoin=\"round\"/>"@
        },
        ShapeModel::Line(x1, y1, x2, y2) => stroke_text(
            "<line x1=\""@ + decimal(x1) + "\" y1=\""@ + decimal(y1) + "\" x2=\""@ + decimal(x2)
                + "\" y2=\""@ + decimal(y2),
            e,
        ) + "\" stroke-linecap=\"round\"/>"@,
        ShapeModel::Rect(x, y, w, h) => stroke_text(
            "<rect x=\""@ + decimal(x) + "\" y=\""@ + decimal(y) + "\" width=\""@ + decimal(w)
                + "\" height=\""@ + decimal(h),
            e,
        ) + "\" fill=\"none\" stroke-linejoin=\"round\"/>"@,
        ShapeModel::Circle(cx, cy, r) => stroke_text(
            "<circle cx=\""@ + decimal(cx) + "\" cy=\""@ + decimal(cy) + "\" r=\""@ + decimal(r),
            e,
        ) + "\" fill=\"none\"/>"@,
    }
}

/// The document a scene without elements exports.
pub open spec fn blank_svg() -> Seq<char> {
    "<svg xmlns=\"http://www.w3.org/2000/svg\" viewBox=\"0 0 800 500\"><rect width=\"800\" height=\"500\" fill=\"white\"/></svg>"@
}

/// The opening tag and white background for content box `b`, padded.
pub open spec fn header_text(b: BoundingBox) -> Seq<char> {
    let vx = b.min_x - EXPORT_PADDING;
    let vy = b.min_y - EXPORT_PADDING;
    let vw = b.max_x - b.min_x + 2 * EXPORT_PADDING;
    let vh = b.max_y - b.min_y + 2 * EXPORT_PADDING;
    "<svg xmlns=\"http://www.w3.org/2000/svg\" viewBox=\""@ + decimal(vx) + " "@ + decimal(vy) + " "@
        + decimal(vw) + " "@ + decimal(vh) + "\">\n  <rect x=\""@ + decimal(vx) + "\" y=\""@
        + decimal(vy) + "\" width=\""@ + decimal(vw) + "\" height=\""@ + decimal(vh)
        + "\" fill=\"white\"/>\n"@
}

/// Each element's primitive on a line of its own, in paint order.
pub open spec fn items_text(prefix: Seq<char>, s: Seq<ElementModel>) -> Seq<char>
    decreases s.len(),
{
    if s.len() == 0 {
        prefix
    } else {
        let t = items_text(prefix, s.drop_last());
        let e = element_svg(s.last());
        if e.len() == 0 {
            t
        } else {
            t + "  "@ + e + "\n"@
        }
    }
}

/// The exported document: a view box around the content (padded), a white
/// background, and one primitive per element in paint order.
pub open spec fn svg_doc(s: Seq<ElementModel>) -> Seq<char> {
    if s.len() == 0 {
        blank_svg()
    } else {
        match union_box(s) {
            Some(b) => items_text(header_text(b), s) + "</svg>"@,
            None => items_text(Seq::empty(), s) + "</svg>"@,
        }
    }
}

fn append_stroke(out: &mut String, e: &Element)
    requires
        e@.wf(),
    ensures
        final(out)@ == stroke_text(old(out)@, e@),
{
    out.append("\" stroke=\"");
    out.append(e.style.color.as_str());
    out.append("\" stroke-width=\"");
    append_int(out, e.style.width as i64);
}

impl Element {
    /// This element as an SVG primitive (see `element_svg`).
    pub fn to_svg(&self) -> (r: String)
        requires
            self.wf(),
        ensures
            r@ == element_svg(self@),
    {
        match &self.shape {
            Shape::Freehand { points } => {
                if points.len() < 2 {
                    return String::new();
                }
                let mut out = String::from_str("<path d=\"");
                append_path(&mut out, points);
                append_stroke(&mut out, self);
                out.append("\" fill=\"none\" stroke-linecap=\"round\" stroke-linejoin=\"round\"/>");
                out
            },
            Shape::Line { x1, y1, x2, y2 } => {
                let mut out = String::from_str("<line x1=\"");
                append_int(&mut out, *x1);
                out.append("\" y1=\"");
                append_int(&mut out, *y1);
                out.append("\" x2=\"");
                append_int(&mut out, *x2);
                out.append("\" y2=\"");
                append_int(&mut out, *y2);
                append_stroke(&mut out, self);
                out.append("\" stroke-linecap=\"round\"/>");
                out
            },
            Shape::Rect { x, y, w, h } => {
                let mut out = String::from_str("<rect x=\"");
                append_int(&mut out, *x);
                out.append("\" y=\"");
                append_int(&mut out, *y);
                out.append("\" width=\"");
                append_int(&mut out, *w);
                out.append("\" height=\"");
                append_int(&mut out, *h);
                append_stroke(&mut out, self);
                out.append("\" fill=\"none\" stroke-linejoin=\"round\"/>");
                out
            },
            Shape::Circle { cx, cy, r } => {
                let mut out = String::from_str("<circle cx=\"");
                append_int(&mut out, *cx);
                out.append("\" cy=\"");
                append_int(&mut out, *cy);
                out.append("\" r=\"");
                append_int(&mut out, *r);
                append_stroke(&mut out, self);
                out.append("\" fill=\"none\"/>");
                out
            },
        }
    }
}

fn append_path(out: &mut String, points: &Vec<Point>)
    requires
        points@.len() >= 1,
        crate::element::all_wf(points@),
    ensures
        final(out)@ == path_text(old(out)@, points@),
{
    let ghost prefix = out@;
    assert(points@[0].wf());
    out.append("M ");
    append_int(out, points[0].x);
    out.append(" ");
    append_int(out, points[0].y);
    let mut i: usize = 1;
    assert(points@.take(1).len() == 1);
    assert(points@.take(1)[0] == points@[0]);
    while i < points.len()
        invariant
            1 <= i <= points.len(),
            crate::element::all_wf(points@),
            out@ == path_text(prefix, points@.take(i as int)),
        decreases points.len() - i,
    {
        assert(points@[i as int].wf());
        assert(points@.take(i + 1).drop_last() =~= points@.take(i as int));
        out.append(" L ");
        append_int(out, points[i].x);
        out.append(" ");
        append_int(out, points[i].y);
        i = i + 1;
    }
    assert(points@.take(points.len() as int) =~= points@);
}

impl Canvas {
    /// The scene as an SVG document (see `svg_doc`).
    pub fn export_svg(&self) -> (r: String)
        requires
            self.wf(),
        ensures
            r@ == svg_doc(self.scene()),
    {
        if self.elements.len() == 0 {
            return String::from_str(
                "<svg xmlns=\"http://www.w3.org/2000/svg\" viewBox=\"0 0 800 500\"><rect width=\"800\" height=\"500\" fill=\"white\"/></svg>",
            );
        }
        let ghost s = self.scene();
        let content = content_bounds(&self.elements);
        let mut out = match content {
            Some(b) => header(b),
            None => String::new(),
        };
        let ghost prefix = out@;
        let mut i: usize = 0;
        while i < self.elements.len()
            invariant
                i <= self.elements.len(),
                s == self.scene(),
                all_issued(s, self.next_id),
                out@ == items_text(prefix, s.take(i as int)),
            decreases self.elements.len() - i,
        {
            assert(s.take(i + 1).drop_last() =~= s.take(i as int));
            assert(s[i as int] == self.elements@[i as int]@);
            let text = self.elements[i].to_svg();
            if text.as_str().is_empty() {
                assert(text@.len() == 0);
            } else {
                out.append("  ");
                out.append(text.as_str());
                out.append("\n");
            }
            i = i + 1;
        }
        assert(s.take(s.len() as int) =~= s);
        out.append("</svg>");
        out
    }
}

fn header(b: BoundingBox) -> (r: String)
    requires
        box_ok(b),
        b.wf(),
    ensures
        r@ == header_text(b),
{
    let vx = b.min_x - EXPORT_PADDING;
    let vy = b.min_y - EXPORT_PADDING;
    let vw = b.max_x - b.min_x + 2 * EXPORT_PADDING;
    let vh = b.max_y - b.min_y + 2 * EXPORT_PADDING;
    let mut out = String::from_str("<svg xmlns=\"http://www.w3.org/2000/svg\" viewBox=\"");
    append_int(&mut out, vx);
    out.append(" ");
    append_int(&mut out, vy);
    out.append(" ");
    append_int(&mut out, vw);
    out.append(" ");
    append_int(&mut out, vh);
    out.append("\">\n  <rect x=\"");
    append_int(&mut out, vx);
    out.append("\" y=\"");
    append_int(&mut out, vy);
    out.append("\" width=\"");
    append_int(&mut out, vw);
    out.append("\" height=\"");
    append_int(&mut out, vh);
    out.append("\" fill=\"white\"/>\n");
    out
}

} // verus!
