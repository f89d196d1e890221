//! Reversible scene changes and what doing or undoing each one does to the
//! ordered element list.
use vstd::prelude::*;
use crate::element::{Element, ElementModel};

verus! {

/// Largest magnitude of the distance a move gesture may add up.
pub const MOVE_LIMIT: i64 = 1099511627776;

/// A recorded scene change, holding its own copies of the elements involved.
#[allow(inconsistent_fields)]
pub enum Action {
    AddElement { element: Element },
    DeleteElements { elements: Vec<(usize, Element)> },
    MoveElements { ids: Vec<u64>, dx: i64, dy: i64 },
    PasteElements { elements: Vec<Element> },
    ClearAll { elements: Vec<Element> },
}

/// What an action holds, as mathematical values.
pub enum ActionModel {
    Add(ElementModel),
    Delete(Seq<(int, ElementModel)>),
    Move(Set<u64>, int, int),
    Paste(Seq<ElementModel>),
    Clear(Seq<ElementModel>),
}

pub open spec fn models(v: Seq<Element>) -> Seq<ElementModel> {
    v.map_values(|e: Element| e@)
}

pub open spec fn placed_models(v: Seq<(usize, Element)>) -> Seq<(int, ElementModel)> {
    v.map_values(|p: (usize, Element)| (p.0 as int, p.1@))
}

pub open spec fn id_set(v: Seq<u64>) -> Set<u64> {
    Set::new(|id: u64| v.contains(id))
}

/// Ids of a list of elements.
pub open spec fn ids_of(s: Seq<ElementModel>) -> Set<u64> {
    Set::new(|id: u64| exists|j: int| 0 <= j < s.len() && (#[trigger] s[j]).id == id)
}

/// Ids of a list of placed elements.
pub open spec fn placed_ids(s: Seq<(int, ElementModel)>) -> Set<u64> {
    Set::new(|id: u64| exists|j: int| 0 <= j < s.len() && (#[trigger] s[j]).1.id == id)
}

/// The list without the elements whose id is in `sel`, order kept.
pub open spec fn remove_sel(s: Seq<ElementModel>, sel: Set<u64>) -> Seq<ElementModel>
    decreases s.len(),
{
    if s.len() == 0 {
        s
    } else {
        let t = remove_sel(s.drop_last(), sel);
        if sel.contains(s.last().id) {
            t
        } else {
            t.push(s.last())
        }
    }
}

/// The elements whose id is in `sel`, each with its index, in list order.
pub open spec fn deleted_list(s: Seq<ElementModel>, sel: Set<u64>) -> Seq<(int, ElementModel)>
    decreases s.len(),
{
    if s.len() == 0 {
        Seq::empty()
    } else {
        let t = deleted_list(s.drop_last(), sel);
        if sel.contains(s.last().id) {
            t.push((s.len() - 1, s.last()))
        } else {
            t
        }
    }
}

/// Index `i` clamped to the positions of a list of length `n`.
pub open spec fn clamp_index(i: int, n: int) -> int {
    if i < 0 {
        0
    } else if i < n {
        i
    } else {
        n
    }
}

/// Puts each placed element back at its index (clamped to the length at
/// that moment), in list order.
pub open spec fn reinsert(cur: Seq<ElementModel>, list: Seq<(int, ElementModel)>) -> Seq<ElementModel>
    decreases list.len(),
{
    if list.len() == 0 {
        cur
    } else {
        let c = reinsert(cur, list.drop_last());
        c.insert(clamp_index(list.last().0, c.len() as int), list.last().1)
    }
}

/// Every element whose id is in `sel` shifted by `(dx, dy)`, except one that
/// would leave the coordinate range.
pub open spec fn translate_sel(s: Seq<ElementModel>, sel: Set<u64>, dx: int, dy: int) -> Seq<ElementModel> {
    s.map_values(|e: ElementModel| moved_if(e, sel, dx, dy))
}

pub open spec fn moved_if(e: ElementModel, sel: Set<u64>, dx: int, dy: int) -> ElementModel {
    if sel.contains(e.id) && e.shape.can_move(dx, dy) {
        e.moved(dx, dy)
    } else {
        e
    }
}

/// The element list after doing (or redoing) an action.
pub open spec fn redo_effect(s: Seq<ElementModel>, a: ActionModel) -> Seq<ElementModel> {
    match a {
        ActionModel::Add(e) => s.push(e),
        ActionModel::Delete(list) => remove_sel(s, placed_ids(list)),
        ActionModel::Move(ids, dx, dy) => translate_sel(s, ids, dx, dy),
        ActionModel::Paste(es) => s + es,
        ActionModel::Clear(_) => Seq::empty(),
    }
}

/// The element list after undoing an action.
pub open spec fn undo_effect(s: Seq<ElementModel>, a: ActionModel) -> Seq<ElementModel> {
    match a {
        ActionModel::Add(e) => remove_sel(s, set![e.id]),
        ActionModel::Delete(list) => reinsert(s, list),
        ActionModel::Move(ids, dx, dy) => translate_sel(s, ids, -dx, -dy),
        ActionModel::Paste(es) => remove_sel(s, ids_of(es)),
        ActionModel::Clear(es) => es,
    }
}

impl Action {
    pub open spec fn view(&self) -> ActionModel {
        match self {
            Action::AddElement { element } => ActionModel::Add(element@),
            Action::DeleteElements { elements } => ActionModel::Delete(placed_models(elements@)),
            Action::MoveElements { ids, dx, dy } => ActionModel::Move(id_set(ids@), *dx as int, *dy as int),
            Action::PasteElements { elements } => ActionModel::Paste(models(elements@)),
            Action::ClearAll { elements } => ActionModel::Clear(models(elements@)),
        }
    }
}

impl ActionModel {
    /// Every element it holds is well formed and was issued below `next_id`.
    pub open spec fn wf(&self, next_id: u64) -> bool {
        match *self {
            ActionModel::Add(e) => e.wf() && e.id < next_id,
            ActionModel::Delete(list) => forall|j: int|
                0 <= j < list.len() ==> (#[trigger] list[j]).1.wf() && list[j].1.id < next_id,
            ActionModel::Move(_, dx, dy) => -MOVE_LIMIT <= dx <= MOVE_LIMIT && -MOVE_LIMIT <= dy <= MOVE_LIMIT,
            ActionModel::Paste(es) => all_issued(es, next_id),
            ActionModel::Clear(es) => all_issued(es, next_id),
        }
    }
}

/// Every element is well formed and its id is below `next_id`.
pub open spec fn all_issued(s: Seq<ElementModel>, next_id: u64) -> bool {
    forall|j: int| 0 <= j < s.len() ==> (#[trigger] s[j]).wf() && s[j].id < next_id
}

/// Whether `id` occurs in `ids`.
pub fn contains_id(ids: &Vec<u64>, id: u64) -> (r: bool)
    ensures
        r == ids@.contains(id),
{
    let mut i: usize = 0;
    while i < ids.len()
        invariant
            i <= ids.len(),
            forall|j: int| 0 <= j < i ==> ids@[j] != id,
        decreases ids.len() - i,
    {
        if ids[i] == id {
            return true;
        }
        i = i + 1;
    }
    false
}

/// Deep copies of all elements.
pub fn copy_all(v: &Vec<Element>) -> (r: Vec<Element>)
    ensures
        models(r@) == models(v@),
{
    let mut out: Vec<Element> = Vec::new();
    let mut i: usize = 0;
    while i < v.len()
        invariant
            i <= v.len(),
            out@.len() == i,
            forall|j: int| 0 <= j < i ==> (#[trigger] out@[j])@ == v@[j]@,
        decreases v.len() - i,
    {
        out.push(v[i].clone());
        i = i + 1;
    }
    assert(models(out@) =~= models(v@));
    out
}

/// The elements whose id is not in `ids`, order kept.
pub fn without_ids(v: &Vec<Element>, ids: &Vec<u64>) -> (r: Vec<Element>)
    ensures
        models(r@) == remove_sel(models(v@), id_set(ids@)),
{
    let mut out: Vec<Element> = Vec::new();
    let mut i: usize = 0;
    while i < v.len()
        invariant
            i <= v.len(),
            models(out@) == remove_sel(models(v@.take(i as int)), id_set(ids@)),
        decreases v.len() - i,
    {
        let ghost before = models(v@.take(i as int));
        proof {
            assert(models(v@.take(i + 1)).drop_last() =~= before);
        }
        if !contains_id(ids, v[i].id) {
            out.push(v[i].clone());
        }
        i = i + 1;
        assert(models(out@) =~= remove_sel(models(v@.take(i as int)), id_set(ids@)));
    }
    assert(v@.take(v.len() as int) =~= v@);
    out
}

/// Each element whose id is in `ids`, with its index, in list order.
pub fn placed_with_ids(v: &Vec<Element>, ids: &Vec<u64>) -> (r: Vec<(usize, Element)>)
    ensures
        placed_models(r@) == deleted_list(models(v@), id_set(ids@)),
{
    let mut out: Vec<(usize, Element)> = Vec::new();
    let mut i: usize = 0;
    while i < v.len()
        invariant
            i <= v.len(),
            placed_models(out@) == deleted_list(models(v@.take(i as int)), id_set(ids@)),
        decreases v.len() - i,
    {
        proof {
            assert(models(v@.take(i + 1)).drop_last() =~= models(v@.take(i as int)));
        }
        if contains_id(ids, v[i].id) {
            let e = v[i].clone();
            let ghost prev = out@;
            out.push((i, e));
            assert(placed_models(out@) =~= placed_models(prev).push((i as int, e@)));
        }
        i = i + 1;
    }
    assert(v@.take(v.len() as int) =~= v@);
    out
}

/// Puts each placed element back at its index, clamped to the length.
pub fn reinsert_all(v: &mut Vec<Element>, list: &Vec<(usize, Element)>)
    ensures
        models(final(v)@) == reinsert(models(old(v)@), placed_models(list@)),
{
    let ghost start = models(v@);
    let mut i: usize = 0;
    while i < list.len()
        invariant
            i <= list.len(),
            models(v@) == reinsert(start, placed_models(list@.take(i as int))),
        decreases list.len() - i,
    {
        proof {
            assert(placed_models(list@.take(i + 1)).drop_last() =~= placed_models(list@.take(i as int)));
        }
        let idx = if list[i].0 < v.len() {
            list[i].0
        } else {
            v.len()
        };
        let e = list[i].1.clone();
        let ghost prev = v@;
        v.insert(idx, e);
        assert(models(v@) =~= models(prev).insert(idx as int, e@));
        i = i + 1;
    }
    assert(list@.take(list.len() as int) =~= list@);
}

/// Whether every element whose id is in `ids` can shift by `(dx, dy)`.
pub fn can_translate_ids(v: &Vec<Element>, ids: &Vec<u64>, dx: i64, dy: i64) -> (r: bool)
    requires
        all_issued(models(v@), u64::MAX),
    ensures
        r == (forall|j: int|
            0 <= j < v@.len() && id_set(ids@).contains(v@[j].id) ==> (#[trigger] v@[j])@.shape.can_move(
                dx as int,
                dy as int,
            )),
{
    let mut i: usize = 0;
    while i < v.len()
        invariant
            i <= v.len(),
            all_issued(models(v@), u64::MAX),
            forall|j: int|
                0 <= j < i && id_set(ids@).contains(v@[j].id) ==> (#[trigger] v@[j])@.shape.can_move(
                    dx as int,
                    dy as int,
                ),
        decreases v.len() - i,
    {
        assert(models(v@)[i as int] == v@[i as int]@);
        if contains_id(ids, v[i].id) && !v[i].can_translate(dx, dy) {
            return false;
        }
        i = i + 1;
    }
    true
}

/// Shifts every element whose id is in `ids` by `(dx, dy)`, except one that
/// would leave the coordinate range.
pub fn translate_ids(v: &mut Vec<Element>, ids: &Vec<u64>, dx: i64, dy: i64)
    requires
        all_issued(models(old(v)@), u64::MAX),
    ensures
        models(final(v)@) == translate_sel(models(old(v)@), id_set(ids@), dx as int, dy as int),
        all_issued(models(final(v)@), u64::MAX),
{
    let ghost start = models(v@);
    assert(forall|j: int| 0 <= j < v@.len() ==> start[j] == (#[trigger] v@[j])@);
    let mut i: usize = 0;
    while i < v.len()
        invariant
            i <= v.len(),
            v@.len() == start.len(),
            start == models(old(v)@),
            all_issued(start, u64::MAX),
            forall|j: int| 0 <= j < i ==> (#[trigger] v@[j])@ == moved_if(start[j], id_set(ids@), dx as int, dy as int),
            forall|j: int| i <= j < v@.len() ==> (#[trigger] v@[j])@ == start[j],
            forall|j: int| 0 <= j < v@.len() ==> (#[trigger] v@[j])@.wf(),
        decreases v.len() - i,
    {
        assert(v@[i as int]@ == start[i as int]);
        if contains_id(ids, v[i].id) && v[i].can_translate(dx, dy) {
            let mut e = v[i].clone();
            e.translate(dx, dy);
            v.set(i, e);
        }
        i = i + 1;
    }
    assert(models(v@) =~= translate_sel(start, id_set(ids@), dx as int, dy as int));
}

/// The ids of the placed elements.
pub fn placed_id_list(list: &Vec<(usize, Element)>) -> (r: Vec<u64>)
    ensures
        id_set(r@) == placed_ids(placed_models(list@)),
{
    let mut out: Vec<u64> = Vec::new();
    let mut i: usize = 0;
    while i < list.len()
        invariant
            i <= list.len(),
            out@.len() == i,
            forall|j: int| 0 <= j < i ==> out@[j] == (#[trigger] list@[j]).1.id,
        decreases list.len() - i,
    {
        out.push(list[i].1.id);
        i = i + 1;
    }
    proof {
        let pm = placed_models(list@);
        assert forall|id: u64| id_set(out@).contains(id) <==> placed_ids(pm).contains(id) by {
            if id_set(out@).contains(id) {
                let j = choose|j: int| 0 <= j < out@.len() && out@[j] == id;
                assert(pm[j].1.id == id);
            }
            if placed_ids(pm).contains(id) {
                let j = choose|j: int| 0 <= j < pm.len() && (#[trigger] pm[j]).1.id == id;
                assert(out@[j] == id);
            }
        }
        assert(id_set(out@) =~= placed_ids(pm));
    }
    out
}

/// The ids of the elements.
pub fn id_list(v: &Vec<Element>) -> (r: Vec<u64>)
    ensures
        id_set(r@) == ids_of(models(v@)),
        r@.len() == v@.len(),
        forall|j: int| 0 <= j < v@.len() ==> r@[j] == (#[trigger] v@[j]).id,
{
    let mut out: Vec<u64> = Vec::new();
    let mut i: usize = 0;
    while i < v.len()
        invariant
            i <= v.len(),
            out@.len() == i,
            forall|j: int| 0 <= j < i ==> out@[j] == (#[trigger] v@[j]).id,
        decreases v.len() - i,
    {
        out.push(v[i].id);
        i = i + 1;
    }
    proof {
        let m = models(v@);
        assert forall|id: u64| id_set(out@).contains(id) <==> ids_of(m).contains(id) by {
            if id_set(out@).contains(id) {
                let j = choose|j: int| 0 <= j < out@.len() && out@[j] == id;
                assert(m[j].id == id);
            }
            if ids_of(m).contains(id) {
                let j = choose|j: int| 0 <= j < m.len() && (#[trigger] m[j]).id == id;
                assert(out@[j] == id);
            }
        }
        assert(id_set(out@) =~= ids_of(m));
    }
    out
}

/// Removing elements keeps the rest well formed and issued.
pub proof fn lemma_remove_issued(s: Seq<ElementModel>, sel: Set<u64>, n: u64)
    requires
        all_issued(s, n),
    ensures
        all_issued(remove_sel(s, sel), n),
    decreases s.len(),
{
    if s.len() > 0 {
        lemma_remove_issued(s.drop_last(), sel, n);
    }
}

/// Each entry of the deleted list is the element at its index.
pub proof fn lemma_deleted_from(s: Seq<ElementModel>, sel: Set<u64>)
    ensures
        forall|j: int|
            0 <= j < deleted_list(s, sel).len() ==> 0 <= (#[trigger] deleted_list(s, sel)[j]).0 < s.len()
                && deleted_list(s, sel)[j].1 == s[deleted_list(s, sel)[j].0]
                && sel.contains(deleted_list(s, sel)[j].1.id),
    decreases s.len(),
{
    if s.len() > 0 {
        lemma_deleted_from(s.drop_last(), sel);
    }
}

/// Shifting elements that stay in range keeps them well formed.
pub proof fn lemma_translate_issued(s: Seq<ElementModel>, sel: Set<u64>, dx: int, dy: int, n: u64)
    requires
        all_issued(s, n),
    ensures
        all_issued(translate_sel(s, sel, dx, dy), n),
{
    assert forall|j: int| 0 <= j < s.len() implies (#[trigger] translate_sel(s, sel, dx, dy)[j]).wf() by {
        let e = s[j];
        if sel.contains(e.id) && e.shape.can_move(dx, dy) {
            lemma_moved_wf(e, dx, dy);
        }
    }
}

pub proof fn lemma_moved_wf(e: ElementModel, dx: int, dy: int)
    requires
        e.wf(),
        e.shape.can_move(dx, dy),
    ensures
        e.moved(dx, dy).wf(),
{
    match e.shape {
        crate::element::ShapeModel::Freehand(ps) => {
            let qs = crate::element::shifted(ps, dx, dy);
            assert forall|i: int| 0 <= i < qs.len() implies (#[trigger] qs[i]).wf() by {
                assert(crate::element::pt_in_range(ps[i].x + dx, ps[i].y + dy));
            }
        },
        _ => {},
    }
}

/// The elements whose id is in `sel`, order kept.
pub open spec fn keep_sel(s: Seq<ElementModel>, sel: Set<u64>) -> Seq<ElementModel>
    decreases s.len(),
{
    if s.len() == 0 {
        s
    } else {
        let t = keep_sel(s.drop_last(), sel);
        if sel.contains(s.last().id) {
            t.push(s.last())
        } else {
            t
        }
    }
}

/// Copies of the elements whose id is in `ids`, order kept.
pub fn with_ids(v: &Vec<Element>, ids: &Vec<u64>) -> (r: Vec<Element>)
    ensures
        models(r@) == keep_sel(models(v@), id_set(ids@)),
{
    let mut out: Vec<Element> = Vec::new();
    let mut i: usize = 0;
    while i < v.len()
        invariant
            i <= v.len(),
            models(out@) == keep_sel(models(v@.take(i as int)), id_set(ids@)),
        decreases v.len() - i,
    {
        let ghost before = models(v@.take(i as int));
        proof {
            assert(models(v@.take(i + 1)).drop_last() =~= before);
        }
        if contains_id(ids, v[i].id) {
            let e = v[i].clone();
            let ghost prev = out@;
            out.push(e);
            assert(models(out@) =~= models(prev).push(e@));
        }
        i = i + 1;
    }
    assert(v@.take(v.len() as int) =~= v@);
    out
}

/// Keeping elements keeps them well formed and issued.
pub proof fn lemma_keep_issued(s: Seq<ElementModel>, sel: Set<u64>, n: u64)
    requires
        all_issued(s, n),
    ensures
        all_issued(keep_sel(s, sel), n),
    decreases s.len(),
{
    if s.len() > 0 {
        lemma_keep_issued(s.drop_last(), sel, n);
    }
}

/// Putting issued elements back keeps the list issued.
pub proof fn lemma_reinsert_issued(cur: Seq<ElementModel>, list: Seq<(int, ElementModel)>, n: u64)
    requires
        all_issued(cur, n),
        forall|j: int| 0 <= j < list.len() ==> (#[trigger] list[j]).1.wf() && list[j].1.id < n,
    ensures
        all_issued(reinsert(cur, list), n),
    decreases list.len(),
{
    if list.len() > 0 {
        let init = list.drop_last();
        assert forall|j: int| 0 <= j < init.len() implies (#[trigger] init[j]).1.wf() && init[j].1.id < n by {
            assert(init[j] == list[j]);
        }
        lemma_reinsert_issued(cur, init, n);
        let c = reinsert(cur, init);
        let e = list.last().1;
        let i = clamp_index(list.last().0, c.len() as int);
        let r = c.insert(i, e);
        assert forall|j: int| 0 <= j < r.len() implies (#[trigger] r[j]).wf() && r[j].id < n by {
            if j < i {
                assert(r[j] == c[j]);
            } else if j > i {
                assert(r[j] == c[j - 1]);
            }
        }
    }
}

/// No element of the list carries `id`.
pub open spec fn absent(s: Seq<ElementModel>, id: u64) -> bool {
    forall|j: int| 0 <= j < s.len() ==> (#[trigger] s[j]).id != id
}

/// No element that the action holds carries `id`.
pub open spec fn action_absent(a: ActionModel, id: u64) -> bool {
    match a {
        ActionModel::Add(e) => e.id != id,
        ActionModel::Delete(list) => forall|j: int| 0 <= j < list.len() ==> (#[trigger] list[j]).1.id != id,
        ActionModel::Move(_, _, _) => true,
        ActionModel::Paste(es) => absent(es, id),
        ActionModel::Clear(es) => absent(es, id),
    }
}

/// An id not yet issued is carried by no issued element.
pub proof fn lemma_issued_absent(s: Seq<ElementModel>, n: u64)
    requires
        all_issued(s, n),
    ensures
        absent(s, n),
{
}

/// An id not yet issued is held by no action issued below it.
pub proof fn lemma_action_issued_absent(a: ActionModel, n: u64)
    requires
        a.wf(n),
    ensures
        action_absent(a, n),
{
}

/// Removing elements brings in no id.
pub proof fn lemma_remove_keeps_absent(s: Seq<ElementModel>, sel: Set<u64>, id: u64)
    requires
        absent(s, id),
    ensures
        absent(remove_sel(s, sel), id),
    decreases s.len(),
{
    if s.len() > 0 {
        lemma_remove_keeps_absent(s.drop_last(), sel, id);
    }
}

/// Keeping some elements brings in no id.
pub proof fn lemma_keep_keeps_absent(s: Seq<ElementModel>, sel: Set<u64>, id: u64)
    requires
        absent(s, id),
    ensures
        absent(keep_sel(s, sel), id),
    decreases s.len(),
{
    if s.len() > 0 {
        lemma_keep_keeps_absent(s.drop_last(), sel, id);
    }
}

/// The deleted list holds only ids of the list it came from.
pub proof fn lemma_deleted_keeps_absent(s: Seq<ElementModel>, sel: Set<u64>, id: u64)
    requires
        absent(s, id),
    ensures
        action_absent(ActionModel::Delete(deleted_list(s, sel)), id),
{
    lemma_deleted_from(s, sel);
}

/// Putting elements back brings in only their ids.
pub proof fn lemma_reinsert_keeps_absent(cur: Seq<ElementModel>, list: Seq<(int, ElementModel)>, id: u64)
    requires
        absent(cur, id),
        forall|j: int| 0 <= j < list.len() ==> (#[trigger] list[j]).1.id != id,
    ensures
        absent(reinsert(cur, list), id),
    decreases list.len(),
{
    if list.len() > 0 {
        let init = list.drop_last();
        assert forall|j: int| 0 <= j < init.len() implies (#[trigger] init[j]).1.id != id by {
            assert(init[j] == list[j]);
        }
        lemma_reinsert_keeps_absent(cur, init, id);
        let c = reinsert(cur, init);
        let i = clamp_index(list.last().0, c.len() as int);
        let r = c.insert(i, list.last().1);
        assert forall|j: int| 0 <= j < r.len() implies (#[trigger] r[j]).id != id by {
            if j < i {
                assert(r[j] == c[j]);
            } else if j > i {
                assert(r[j] == c[j - 1]);
            }
        }
    }
}

/// Doing or undoing an action brings in only ids that the list or the
/// action held.
pub proof fn lemma_effects_keep_absent(s: Seq<ElementModel>, a: ActionModel, id: u64)
    requires
        absent(s, id),
        action_absent(a, id),
    ensures
        absent(undo_effect(s, a), id),
        absent(redo_effect(s, a), id),
{
    match a {
        ActionModel::Add(e) => {
            lemma_remove_keeps_absent(s, set![e.id], id);
            let t = s.push(e);
            assert forall|j: int| 0 <= j < t.len() implies (#[trigger] t[j]).id != id by {
                if j < s.len() {
                    assert(t[j] == s[j]);
                }
            }
        },
        ActionModel::Delete(list) => {
            lemma_reinsert_keeps_absent(s, list, id);
            lemma_remove_keeps_absent(s, placed_ids(list), id);
        },
        ActionModel::Move(ids, dx, dy) => {
            assert forall|j: int| 0 <= j < s.len() implies (#[trigger] translate_sel(s, ids, -dx, -dy)[j]).id != id by {
                assert(moved_if(s[j], ids, -dx, -dy).id == s[j].id);
            }
            assert forall|j: int| 0 <= j < s.len() implies (#[trigger] translate_sel(s, ids, dx, dy)[j]).id != id by {
                assert(moved_if(s[j], ids, dx, dy).id == s[j].id);
            }
        },
        ActionModel::Paste(es) => {
            lemma_remove_keeps_absent(s, ids_of(es), id);
            let t = s + es;
            assert forall|j: int| 0 <= j < t.len() implies (#[trigger] t[j]).id != id by {
                if j < s.len() {
                    assert(t[j] == s[j]);
                } else {
                    assert(t[j] == es[j - s.len()]);
                }
            }
        },
        ActionModel::Clear(es) => {},
    }
}

} // verus!
