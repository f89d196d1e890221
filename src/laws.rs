//! Properties that relate several operations, proved over the same spec
//! functions that the operations' contracts use.
use vstd::prelude::*;
use vstd::arithmetic::div_mod::lemma_fundamental_div_mod_converse;
use crate::camera::{to_screen, to_world, Camera};
use crate::canvas::{band_ids, movable, pasted, union_box, Canvas};
use crate::element::{
    seq_max, seq_min, shifted, xs_of, ys_of, ElementModel, ShapeModel,
};
use crate::geometry::{near_segment, sq, BoundingBox, Point, COORD_LIMIT};
use crate::history::{
    all_issued, clamp_index, deleted_list, ids_of, placed_ids, redo_effect, reinsert,
    remove_sel, translate_sel, undo_effect, ActionModel,
};

verus! {

/// The ids an action holds.
pub open spec fn action_ids(a: ActionModel) -> Set<u64> {
    match a {
        ActionModel::Add(e) => set![e.id],
        ActionModel::Delete(list) => placed_ids(list),
        ActionModel::Move(_, _, _) => Set::empty(),
        ActionModel::Paste(es) => ids_of(es),
        ActionModel::Clear(es) => ids_of(es),
    }
}

/// The id that the next drawing, shape or paste receives is new: no element
/// of the scene, the clipboard, the drawing in progress or either history
/// carries it, so undo and redo can never bring back an element with it.
/// Every operation keeps this state well formed and never lowers `next_id`.
/// Likewise the id of a stroke in progress is carried by no element of the
/// scene, so adding the stroke and undoing that gives the scene back.
pub proof fn law_next_id_is_fresh(c: Canvas)
    requires
        c.wf(),
    ensures
        !ids_of(c.scene()).contains(c.next_id),
        !ids_of(crate::history::models(c.clipboard@)).contains(c.next_id),
        c.current_element matches Some(e) ==> e.id != c.next_id,
        c.current_element matches Some(e) ==> !ids_of(c.scene()).contains(e.id),
        forall|j: int| 0 <= j < c.undo_log().len() ==> !action_ids(#[trigger] c.undo_log()[j]).contains(c.next_id),
        forall|j: int| 0 <= j < c.redo_log().len() ==> !action_ids(#[trigger] c.redo_log()[j]).contains(c.next_id),
{
    assert forall|j: int| 0 <= j < c.undo_log().len() implies !action_ids(#[trigger] c.undo_log()[j]).contains(c.next_id) by {
        assert(c.undo_log()[j] == c.undo_stack@[j]@);
        lemma_action_ids_below(c.undo_log()[j], c.next_id);
    }
    assert forall|j: int| 0 <= j < c.redo_log().len() implies !action_ids(#[trigger] c.redo_log()[j]).contains(c.next_id) by {
        assert(c.redo_log()[j] == c.redo_stack@[j]@);
        lemma_action_ids_below(c.redo_log()[j], c.next_id);
    }
    if let Some(e) = &c.current_element {
        if ids_of(c.scene()).contains(e.id) {
            let j = choose|j: int| 0 <= j < c.scene().len() && (#[trigger] c.scene()[j]).id == e.id;
            assert(c.scene()[j].id != e.id);
        }
    }
}

proof fn lemma_action_ids_below(a: ActionModel, n: u64)
    requires
        a.wf(n),
    ensures
        !action_ids(a).contains(n),
{
}

/// Removing ids that no element carries changes nothing.
proof fn lemma_remove_absent(s: Seq<ElementModel>, sel: Set<u64>)
    requires
        forall|j: int| 0 <= j < s.len() ==> !sel.contains((#[trigger] s[j]).id),
    ensures
        remove_sel(s, sel) == s,
    decreases s.len(),
{
    if s.len() > 0 {
        lemma_remove_absent(s.drop_last(), sel);
        assert(s.drop_last().push(s.last()) =~= s);
    }
}

/// Undoing an added element removes it again, and redoing adds it back:
/// `undo(add(S)) == S` and `redo(undo(add(S))) == add(S)` for an element
/// whose id is new to `S`.
pub proof fn law_undo_add(s: Seq<ElementModel>, e: ElementModel)
    requires
        !ids_of(s).contains(e.id),
    ensures
        undo_effect(redo_effect(s, ActionModel::Add(e)), ActionModel::Add(e)) == s,
        redo_effect(undo_effect(redo_effect(s, ActionModel::Add(e)), ActionModel::Add(e)), ActionModel::Add(e))
            == redo_effect(s, ActionModel::Add(e)),
{
    let t = s.push(e);
    assert(t.drop_last() =~= s);
    assert forall|j: int| 0 <= j < s.len() implies !set![e.id].contains((#[trigger] s[j]).id) by {
        if s[j].id == e.id {
            assert(ids_of(s).contains(e.id));
        }
    }
    lemma_remove_absent(s, set![e.id]);
}

/// Removing the ids of appended elements that are new to `s` leaves `s`.
proof fn lemma_remove_appended(s: Seq<ElementModel>, t: Seq<ElementModel>, sel: Set<u64>)
    requires
        forall|j: int| 0 <= j < s.len() ==> !sel.contains((#[trigger] s[j]).id),
        forall|j: int| 0 <= j < t.len() ==> sel.contains((#[trigger] t[j]).id),
    ensures
        remove_sel(s + t, sel) == s,
    decreases t.len(),
{
    if t.len() == 0 {
        assert(s + t =~= s);
        lemma_remove_absent(s, sel);
    } else {
        let u = s + t;
        assert(u.drop_last() =~= s + t.drop_last());
        assert(u.last() == t.last());
        lemma_remove_appended(s, t.drop_last(), sel);
    }
}

/// Undoing a paste removes the pasted copies, and redoing appends them
/// again, when their ids start above every id of `s`.
pub proof fn law_undo_paste(s: Seq<ElementModel>, clip: Seq<ElementModel>, start: u64)
    requires
        forall|j: int| 0 <= j < s.len() ==> (#[trigger] s[j]).id < start,
        start + clip.len() <= u64::MAX,
    ensures
        ({
            let a = ActionModel::Paste(pasted(clip, start));
            &&& undo_effect(redo_effect(s, a), a) == s
            &&& redo_effect(undo_effect(redo_effect(s, a), a), a) == redo_effect(s, a)
        }),
{
    let p = pasted(clip, start);
    assert forall|j: int| 0 <= j < s.len() implies !ids_of(p).contains((#[trigger] s[j]).id) by {
        if ids_of(p).contains(s[j].id) {
            let k = choose|k: int| 0 <= k < p.len() && (#[trigger] p[k]).id == s[j].id;
            assert(p[k].id == start + k);
        }
    }
    assert forall|j: int| 0 <= j < p.len() implies ids_of(p).contains((#[trigger] p[j]).id) by {}
    lemma_remove_appended(s, p, ids_of(p));
}

/// Undoing a clear restores the whole list, and redoing empties it again.
pub proof fn law_undo_clear(s: Seq<ElementModel>)
    ensures
        undo_effect(redo_effect(s, ActionModel::Clear(s)), ActionModel::Clear(s)) == s,
        redo_effect(undo_effect(redo_effect(s, ActionModel::Clear(s)), ActionModel::Clear(s)), ActionModel::Clear(s))
            == redo_effect(s, ActionModel::Clear(s)),
{
}

/// Shifting a shape there and back gives the shape back.
proof fn lemma_move_back(e: ElementModel, dx: int, dy: int)
    requires
        e.wf(),
        e.shape.can_move(dx, dy),
    ensures
        e.moved(dx, dy).shape.can_move(-dx, -dy),
        e.moved(dx, dy).moved(-dx, -dy) == e,
{
    match e.shape {
        ShapeModel::Freehand(ps) => {
            let qs = shifted(ps, dx, dy);
            let rs = shifted(qs, -dx, -dy);
            assert forall|i: int| 0 <= i < qs.len() implies crate::element::pt_in_range((#[trigger] qs[i]).x + -dx, qs[i].y + -dy) by {
                assert(ps[i].wf());
                assert(crate::element::pt_in_range(ps[i].x + dx, ps[i].y + dy));
            }
            assert forall|i: int| 0 <= i < ps.len() implies #[trigger] rs[i] == ps[i] by {
                assert(ps[i].wf());
                assert(crate::element::pt_in_range(ps[i].x + dx, ps[i].y + dy));
            }
            assert(rs =~= ps);
        },
        _ => {},
    }
}

/// Undoing a move shifts the moved elements back, and redoing moves them
/// again, when every selected element could make the move.
pub proof fn law_undo_move(s: Seq<ElementModel>, sel: Set<u64>, dx: int, dy: int)
    requires
        all_issued(s, u64::MAX),
        movable(s, sel, dx, dy),
    ensures
        ({
            let a = ActionModel::Move(sel, dx, dy);
            &&& undo_effect(redo_effect(s, a), a) == s
            &&& redo_effect(undo_effect(redo_effect(s, a), a), a) == redo_effect(s, a)
        }),
{
    let t = translate_sel(s, sel, dx, dy);
    let u = translate_sel(t, sel, -dx, -dy);
    assert forall|j: int| 0 <= j < s.len() implies #[trigger] u[j] == s[j] by {
        let e = s[j];
        if sel.contains(e.id) {
            assert(e.shape.can_move(dx, dy));
            lemma_move_back(e, dx, dy);
            assert(e.moved(dx, dy).id == e.id);
        }
    }
    assert(u =~= s);
}

/// Shifting a shape twice is shifting it once by the sum.
proof fn lemma_move_twice(e: ElementModel, dx1: int, dy1: int, dx2: int, dy2: int)
    requires
        e.wf(),
        e.shape.can_move(dx1, dy1),
        e.moved(dx1, dy1).shape.can_move(dx2, dy2),
    ensures
        e.shape.can_move(dx1 + dx2, dy1 + dy2),
        e.moved(dx1, dy1).moved(dx2, dy2) == e.moved(dx1 + dx2, dy1 + dy2),
{
    match e.shape {
        ShapeModel::Freehand(ps) => {
            let qs = shifted(ps, dx1, dy1);
            let rs = shifted(qs, dx2, dy2);
            let ts = shifted(ps, dx1 + dx2, dy1 + dy2);
            assert forall|i: int| 0 <= i < ps.len() implies crate::element::pt_in_range((#[trigger] ps[i]).x + (dx1 + dx2), ps[i].y + (dy1 + dy2)) by {
                assert(crate::element::pt_in_range(ps[i].x + dx1, ps[i].y + dy1));
                assert(crate::element::pt_in_range(qs[i].x + dx2, qs[i].y + dy2));
            }
            assert forall|i: int| 0 <= i < ps.len() implies #[trigger] rs[i] == ts[i] by {
                assert(crate::element::pt_in_range(ps[i].x + dx1, ps[i].y + dy1));
            }
            assert(rs =~= ts);
        },
        _ => {},
    }
}

/// Two drag steps of a move gesture shift the selection as one move by
/// their sum, which is what the gesture records; so undoing the recorded
/// move undoes the whole gesture.
pub proof fn law_move_steps_combine(s: Seq<ElementModel>, sel: Set<u64>, dx1: int, dy1: int, dx2: int, dy2: int)
    requires
        all_issued(s, u64::MAX),
        movable(s, sel, dx1, dy1),
        movable(translate_sel(s, sel, dx1, dy1), sel, dx2, dy2),
    ensures
        movable(s, sel, dx1 + dx2, dy1 + dy2),
        translate_sel(translate_sel(s, sel, dx1, dy1), sel, dx2, dy2) == translate_sel(s, sel, dx1 + dx2, dy1 + dy2),
{
    let t = translate_sel(s, sel, dx1, dy1);
    let u = translate_sel(t, sel, dx2, dy2);
    let v = translate_sel(s, sel, dx1 + dx2, dy1 + dy2);
    assert forall|j: int| 0 <= j < s.len() && sel.contains(s[j].id) implies (#[trigger] s[j]).shape.can_move(dx1 + dx2, dy1 + dy2) by {
        assert(t[j] == s[j].moved(dx1, dy1));
        lemma_move_twice(s[j], dx1, dy1, dx2, dy2);
    }
    assert forall|j: int| 0 <= j < s.len() implies #[trigger] u[j] == v[j] by {
        if sel.contains(s[j].id) {
            assert(t[j] == s[j].moved(dx1, dy1));
            lemma_move_twice(s[j], dx1, dy1, dx2, dy2);
        }
    }
    assert(u =~= v);
}

/// Putting elements back into a list that has one more element at its end
/// puts them in the same places, as long as no index needed clamping.
proof fn lemma_reinsert_push(cur: Seq<ElementModel>, x: ElementModel, list: Seq<(int, ElementModel)>)
    requires
        forall|j: int| 0 <= j < list.len() ==> 0 <= (#[trigger] list[j]).0 <= cur.len() + j,
    ensures
        reinsert(cur.push(x), list) == reinsert(cur, list).push(x),
        reinsert(cur, list).len() == cur.len() + list.len(),
    decreases list.len(),
{
    if list.len() > 0 {
        let init = list.drop_last();
        assert forall|j: int| 0 <= j < init.len() implies 0 <= (#[trigger] init[j]).0 <= cur.len() + j by {
            assert(init[j] == list[j]);
        }
        lemma_reinsert_push(cur, x, init);
        let c = reinsert(cur, init);
        let i = list.last().0;
        assert(0 <= i <= c.len());
        assert(clamp_index(i, c.len() + 1 as int) == i);
        assert(c.push(x).insert(i, list.last().1) =~= c.insert(i, list.last().1).push(x));
    }
}

/// Facts about the deleted list: its indices grow with the list, and its
/// ids are exactly the selected ids found in `s`.
proof fn lemma_deleted_shape(s: Seq<ElementModel>, sel: Set<u64>)
    ensures
        ({
            let d = deleted_list(s, sel);
            &&& forall|j: int| 0 <= j < d.len() ==> 0 <= (#[trigger] d[j]).0 <= remove_sel(s, sel).len() + j
            &&& forall|j: int| 0 <= j < d.len() ==> (#[trigger] d[j]).0 < s.len()
            &&& d.len() + remove_sel(s, sel).len() == s.len()
        }),
    decreases s.len(),
{
    if s.len() > 0 {
        lemma_deleted_shape(s.drop_last(), sel);
    }
}

/// Undoing a deletion puts every deleted element back at its index, in the
/// former order: `undo(delete(S)) == S`.
proof fn lemma_undo_delete(s: Seq<ElementModel>, sel: Set<u64>)
    ensures
        reinsert(remove_sel(s, sel), deleted_list(s, sel)) == s,
    decreases s.len(),
{
    if s.len() > 0 {
        let t = s.drop_last();
        let x = s.last();
        lemma_undo_delete(t, sel);
        lemma_deleted_shape(t, sel);
        let r = remove_sel(t, sel);
        let d = deleted_list(t, sel);
        if sel.contains(x.id) {
            lemma_reinsert_push(r, x, Seq::empty());
            let full = d.push((t.len() as int, x));
            assert(full.drop_last() =~= d);
            assert(reinsert(r, d) == t);
            assert(clamp_index(t.len() as int, t.len() as int) == t.len());
            assert(t.insert(t.len() as int, x) =~= s);
        } else {
            lemma_reinsert_push(r, x, d);
            assert(t.push(x) =~= s);
        }
    }
}

/// Removing by two id sets that agree on the ids of `s` gives one result.
proof fn lemma_remove_same(s: Seq<ElementModel>, a: Set<u64>, b: Set<u64>)
    requires
        forall|j: int| 0 <= j < s.len() ==> (a.contains((#[trigger] s[j]).id) <==> b.contains(s[j].id)),
    ensures
        remove_sel(s, a) == remove_sel(s, b),
    decreases s.len(),
{
    if s.len() > 0 {
        lemma_remove_same(s.drop_last(), a, b);
    }
}

/// Undoing a deletion of the elements whose id is in `sel` restores the
/// list exactly, in its former order; redoing deletes them again.
pub proof fn law_undo_delete(s: Seq<ElementModel>, sel: Set<u64>)
    ensures
        ({
            let a = ActionModel::Delete(deleted_list(s, sel));
            &&& undo_effect(remove_sel(s, sel), a) == s
            &&& redo_effect(undo_effect(remove_sel(s, sel), a), a) == remove_sel(s, sel)
        }),
{
    lemma_undo_delete(s, sel);
    crate::history::lemma_deleted_from(s, sel);
    let d = deleted_list(s, sel);
    assert forall|j: int| 0 <= j < s.len() implies (placed_ids(d).contains((#[trigger] s[j]).id) <==> sel.contains(s[j].id)) by {
        if placed_ids(d).contains(s[j].id) {
            let k = choose|k: int| 0 <= k < d.len() && (#[trigger] d[k]).1.id == s[j].id;
            assert(sel.contains(d[k].1.id));
        }
        if sel.contains(s[j].id) {
            lemma_deleted_has(s, sel, j);
        }
    }
    lemma_remove_same(s, placed_ids(d), sel);
}

/// Every selected element of `s` is in the deleted list.
proof fn lemma_deleted_has(s: Seq<ElementModel>, sel: Set<u64>, j: int)
    requires
        0 <= j < s.len(),
        sel.contains(s[j].id),
    ensures
        placed_ids(deleted_list(s, sel)).contains(s[j].id),
    decreases s.len(),
{
    let d = deleted_list(s, sel);
    if j == s.len() - 1 {
        assert(d.last().1 == s[j]);
    } else {
        lemma_deleted_has(s.drop_last(), sel, j);
        let d0 = deleted_list(s.drop_last(), sel);
        let k = choose|k: int| 0 <= k < d0.len() && (#[trigger] d0[k]).1.id == s[j].id;
        assert(d[k] == d0[k]);
    }
}

/// Mapping a world coordinate to the screen and back gives it back, for
/// every camera.
pub proof fn law_screen_round_trip(c: Camera, w: int)
    requires
        c.wf(),
    ensures
        to_world(to_screen(w, c.zoom as int, c.pan_x as int), c.zoom as int, c.pan_x as int) == w,
        to_world(to_screen(w, c.zoom as int, c.pan_y as int), c.zoom as int, c.pan_y as int) == w,
{
    lemma_fundamental_div_mod_converse(w * c.zoom, c.zoom as int, w, 0);
}

/// A rubber band that meets no element's box selects nothing.
pub proof fn law_band_disjoint(s: Seq<ElementModel>, rect: BoundingBox)
    requires
        forall|j: int| 0 <= j < s.len() ==> !((#[trigger] s[j]).bounds() matches Some(b) && rect.overlaps(&b)),
    ensures
        band_ids(s, rect) == Set::<u64>::empty(),
{
    assert(band_ids(s, rect) =~= Set::<u64>::empty());
}

/// Least and greatest coordinates of in-range points are in range and in
/// order.
proof fn lemma_extent(v: Seq<int>)
    requires
        v.len() >= 1,
        forall|i: int| 0 <= i < v.len() ==> -COORD_LIMIT <= #[trigger] v[i] <= COORD_LIMIT,
    ensures
        -COORD_LIMIT <= seq_min(v) <= seq_max(v) <= COORD_LIMIT,
    decreases v.len(),
{
    if v.len() > 1 {
        let t = v.drop_last();
        assert forall|i: int| 0 <= i < t.len() implies -COORD_LIMIT <= #[trigger] t[i] <= COORD_LIMIT by {
            assert(t[i] == v[i]);
        }
        lemma_extent(t);
    }
}

/// A well-formed element has a box, and the box is not inverted.
proof fn lemma_bounds_wf(e: ElementModel)
    requires
        e.wf(),
    ensures
        e.bounds() matches Some(b) && b.wf(),
{
    match e.shape {
        ShapeModel::Freehand(ps) => {
            let xs = xs_of(ps);
            let ys = ys_of(ps);
            assert forall|i: int| 0 <= i < xs.len() implies -COORD_LIMIT <= #[trigger] xs[i] <= COORD_LIMIT by {
                assert(ps[i].wf());
            }
            assert forall|i: int| 0 <= i < ys.len() implies -COORD_LIMIT <= #[trigger] ys[i] <= COORD_LIMIT by {
                assert(ps[i].wf());
            }
            lemma_extent(xs);
            lemma_extent(ys);
        },
        _ => {},
    }
}

/// Each element's box lies inside the union box.
proof fn lemma_union_covers(s: Seq<ElementModel>, j: int)
    requires
        0 <= j < s.len(),
        all_issued(s, u64::MAX),
    ensures
        union_box(s) matches Some(u) && (s[j].bounds() matches Some(b) && u.min_x <= b.min_x && u.min_y
            <= b.min_y && b.max_x <= u.max_x && b.max_y <= u.max_y && b.wf()),
    decreases s.len(),
{
    let t = s.drop_last();
    lemma_bounds_wf(s.last());
    lemma_bounds_wf(s[j]);
    if j < s.len() - 1 {
        assert(all_issued(t, u64::MAX)) by {
            assert forall|k: int| 0 <= k < t.len() implies (#[trigger] t[k]).wf() && t[k].id < u64::MAX by {
                assert(t[k] == s[k]);
            }
        }
        lemma_union_covers(t, j);
        assert(t[j] == s[j]);
    } else if t.len() > 0 {
        assert(all_issued(t, u64::MAX)) by {
            assert forall|k: int| 0 <= k < t.len() implies (#[trigger] t[k]).wf() && t[k].id < u64::MAX by {
                assert(t[k] == s[k]);
            }
        }
        lemma_union_covers(t, 0);
    }
}

/// A rubber band that covers the union box of the elements selects them
/// all.
pub proof fn law_band_covering(s: Seq<ElementModel>, rect: BoundingBox)
    requires
        all_issued(s, u64::MAX),
        union_box(s) matches Some(u) && rect.min_x <= u.min_x && rect.min_y <= u.min_y && u.max_x
            <= rect.max_x && u.max_y <= rect.max_y,
    ensures
        band_ids(s, rect) == ids_of(s),
{
    assert forall|id: u64| band_ids(s, rect).contains(id) <==> ids_of(s).contains(id) by {
        if ids_of(s).contains(id) {
            let j = choose|j: int| 0 <= j < s.len() && (#[trigger] s[j]).id == id;
            lemma_union_covers(s, j);
        }
    }
    assert(band_ids(s, rect) =~= ids_of(s));
}

/// A point on a segment of a freehand stroke of width 10 hits the stroke,
/// and a point farther than 9 units from every segment does not.
pub proof fn law_freehand_hit(e: ElementModel, p: Point)
    requires
        e.width == 10,
        e.shape matches ShapeModel::Freehand(_),
    ensures
        e.reach() == 18,
        (e.shape matches ShapeModel::Freehand(ps) && exists|i: int|
            0 <= i && i + 1 < ps.len() && near_segment(p, #[trigger] ps[i], ps[i + 1], 0)) ==> e.hits(p),
        (e.shape matches ShapeModel::Freehand(ps) && forall|i: int|
            0 <= i && i + 1 < ps.len() ==> !near_segment(p, #[trigger] ps[i], ps[i + 1], 18)) ==> !e.hits(p),
{
    if let ShapeModel::Freehand(ps) = e.shape {
        if exists|i: int| 0 <= i && i + 1 < ps.len() && near_segment(p, #[trigger] ps[i], ps[i + 1], 0) {
            let i = choose|i: int| 0 <= i && i + 1 < ps.len() && near_segment(p, #[trigger] ps[i], ps[i + 1], 0);
            lemma_near_widens(p, ps[i], ps[i + 1], 18);
        }
    }
}

/// A point within distance zero of a segment is within any distance of it.
proof fn lemma_near_widens(p: Point, a: Point, b: Point, k: int)
    requires
        near_segment(p, a, b, 0),
        k >= 0,
    ensures
        near_segment(p, a, b, k),
{
    let dx = b.x - a.x;
    let dy = b.y - a.y;
    assert(dx * dx >= 0 && dy * dy >= 0) by (nonlinear_arith);
    let len2 = sq(dx) + sq(dy);
    assert(len2 >= 0);
    assert(0 * 0 * len2 == 0);
    assert(k * k >= 0) by (nonlinear_arith)
        requires
            k >= 0,
    ;
    assert(k * k * len2 >= 0) by (nonlinear_arith)
        requires
            k >= 0,
            len2 >= 0,
    ;
}

} // verus!
