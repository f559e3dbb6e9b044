//! Building areas and entrances: which of them a point of the level lies in,
//! and which entrance a reference names.
use vstd::prelude::*;

verus! {

/// A point of the level in LDtk pixel coordinates (origin at the top-left).
#[derive(Clone, Copy, Debug, Default, PartialEq, Eq, Structural)]
pub struct PixelCoords {
    pub x: i32,
    pub y: i32,
}

/// The rectangle that an LDtk entity covers: its corner `px` and its size.
#[derive(Clone, Copy, Debug, Default, PartialEq, Eq, Structural)]
pub struct LevelPositional {
    pub px: PixelCoords,
    pub width: i32,
    pub height: i32,
}

/// The far corner of the rectangle fits in `i32`.
pub open spec fn positional_fits(p: LevelPositional) -> bool {
    &&& i32::MIN <= p.px.x + p.width <= i32::MAX
    &&& i32::MIN <= p.px.y + p.height <= i32::MAX
}

/// `xy` lies strictly inside the rectangle of `p`.
pub open spec fn spec_inside(p: LevelPositional, xy: PixelCoords) -> bool {
    &&& p.px.x < xy.x < p.px.x + p.width
    &&& p.px.y < xy.y < p.px.y + p.height
}

/// Whether `xy` lies strictly inside the rectangle of `level_positional`.
pub fn inside_level_positional(level_positional: &LevelPositional, xy: &PixelCoords) -> (r: bool)
    requires
        positional_fits(*level_positional),
    ensures
        r == spec_inside(*level_positional, *xy),
        r <==> (level_positional.px.x < xy.x && xy.x < level_positional.px.x
            + level_positional.width && level_positional.px.y < xy.y && xy.y
            < level_positional.px.y + level_positional.height),
{
    let gpxx_min = level_positional.px.x;
    let gpxx_max = gpxx_min + level_positional.width;
    let gpxy_min = level_positional.px.y;
    let gpxy_max = gpxy_min + level_positional.height;
    xy.x > gpxx_min && xy.x < gpxx_max && xy.y > gpxy_min && xy.y < gpxy_max
}

/// The positions, in order, of the areas that hold `xy`.
pub open spec fn areas_holding(areas: Seq<LevelPositional>, xy: PixelCoords) -> Seq<usize>
    decreases areas.len(),
{
    if areas.len() == 0 {
        seq![]
    } else {
        let before = areas_holding(areas.drop_last(), xy);
        if spec_inside(areas.last(), xy) {
            before.push((areas.len() - 1) as usize)
        } else {
            before
        }
    }
}

/// The positions of the areas, among `areas`, that hold the point `xy` (a touch
/// or a click), in the order of the areas.
pub fn areas_at(areas: &Vec<LevelPositional>, xy: &PixelCoords) -> (r: Vec<usize>)
    requires
        forall|i: int| 0 <= i < areas.len() ==> positional_fits(#[trigger] areas[i]),
    ensures
        r@ == areas_holding(areas@, *xy),
{
    let mut found: Vec<usize> = Vec::new();
    let mut i: usize = 0;
    while i < areas.len()
        invariant
            i <= areas.len(),
            forall|i: int| 0 <= i < areas.len() ==> positional_fits(#[trigger] areas[i]),
            found@ == areas_holding(areas@.take(i as int), *xy),
        decreases areas.len() - i,
    {
        assert(areas@.take(i + 1).drop_last() =~= areas@.take(i as int));
        if inside_level_positional(&areas[i], xy) {
            found.push(i);
        }
        i = i + 1;
    }
    assert(areas@.take(areas.len() as int) =~= areas@);
    found
}

/// What the player standing at `player` does at the building entrances.
pub struct EntranceVisit {
    /// Whether the player stands inside some entrance now.
    pub inside: bool,
    /// The entrances to go through, by position.
    pub enter: Vec<usize>,
}

/// A player standing at `player` is inside an entrance when one holds it; it
/// goes through the entrances that hold it only when it was not inside one
/// before, so that staying in an entrance does not send it through again.
pub open spec fn spec_visit(
    inside_before: bool,
    entrances: Seq<LevelPositional>,
    player: PixelCoords,
) -> (bool, Seq<usize>) {
    (
        areas_holding(entrances, player).len() > 0,
        if inside_before {
            Seq::empty()
        } else {
            areas_holding(entrances, player)
        },
    )
}

/// What the player standing at `player`, inside an entrance before or not,
/// does at the building entrances.
pub fn visit_entrances(
    inside_before: bool,
    entrances: &Vec<LevelPositional>,
    player: &PixelCoords,
) -> (r: EntranceVisit)
    requires
        forall|i: int| 0 <= i < entrances.len() ==> positional_fits(#[trigger] entrances[i]),
    ensures
        (r.inside, r.enter@) == spec_visit(inside_before, entrances@, *player),
{
    let mut some_inside = false;
    let mut enter: Vec<usize> = Vec::new();
    let mut i: usize = 0;
    while i < entrances.len()
        invariant
            i <= entrances.len(),
            forall|i: int| 0 <= i < entrances.len() ==> positional_fits(#[trigger] entrances[i]),
            some_inside == (areas_holding(entrances@.take(i as int), *player).len() > 0),
            enter@ == (if inside_before {
                Seq::empty()
            } else {
                areas_holding(entrances@.take(i as int), *player)
            }),
        decreases entrances.len() - i,
    {
        assert(entrances@.take(i + 1).drop_last() =~= entrances@.take(i as int));
        if inside_level_positional(&entrances[i], player) {
            some_inside = true;
            if !inside_before {
                enter.push(i);
            }
        }
        i = i + 1;
    }
    assert(entrances@.take(entrances.len() as int) =~= entrances@);
    EntranceVisit { inside: some_inside, enter }
}

/// A player that stays where it is goes through no entrance a second time:
/// after a visit, a visit from the same spot enters nothing.
pub proof fn lemma_no_second_visit(
    inside_before: bool,
    entrances: Seq<LevelPositional>,
    player: PixelCoords,
)
    ensures
        spec_visit(spec_visit(inside_before, entrances, player).0, entrances, player).1.len()
            == 0,
{
}

/// A point is inside an area exactly when it lies strictly between the left and
/// right edges and strictly between the top and bottom edges.
pub proof fn lemma_inside_exactly(p: LevelPositional, xy: PixelCoords)
    ensures
        spec_inside(p, xy) <==> (p.px.x < xy.x && xy.x < p.px.x + p.width && p.px.y < xy.y && xy.y
            < p.px.y + p.height),
{
}

/// The areas found at a point are exactly the areas that strictly hold it, each
/// once, in the order of the areas.
pub proof fn lemma_areas_holding_exactly(areas: Seq<LevelPositional>, xy: PixelCoords)
    requires
        areas.len() <= usize::MAX,
    ensures
        forall|k: usize| #[trigger]
            areas_holding(areas, xy).contains(k) <==> (k < areas.len() && areas[k as int].px.x
                < xy.x && xy.x < areas[k as int].px.x + areas[k as int].width && areas[k as int].px.y
                < xy.y && xy.y < areas[k as int].px.y + areas[k as int].height),
        forall|i: int, j: int|
            0 <= i < j < areas_holding(areas, xy).len() ==> areas_holding(areas, xy)[i]
                < areas_holding(areas, xy)[j],
        forall|i: int|
            0 <= i < areas_holding(areas, xy).len() ==> #[trigger] areas_holding(areas, xy)[i]
                < areas.len(),
    decreases areas.len(),
{
    if areas.len() > 0 {
        let p = areas.drop_last();
        lemma_areas_holding_exactly(p, xy);
        let before = areas_holding(p, xy);
        let all = areas_holding(areas, xy);
        let last = (areas.len() - 1) as usize;
        assert forall|k: usize| #[trigger]
            all.contains(k) <==> (k < areas.len() && areas[k as int].px.x < xy.x && xy.x
                < areas[k as int].px.x + areas[k as int].width && areas[k as int].px.y < xy.y && xy.y
                < areas[k as int].px.y + areas[k as int].height) by {
            if k < last {
                assert(areas[k as int] == p[k as int]);
            }
            if all.contains(k) {
                let t = choose|t: int| 0 <= t < all.len() && all[t] == k;
                if t < before.len() {
                    assert(before[t] == k);
                    assert(before.contains(k));
                }
            }
            if k < areas.len() && spec_inside(areas[k as int], xy) {
                if k < last {
                    assert(before.contains(k));
                    let t = choose|t: int| 0 <= t < before.len() && before[t] == k;
                    assert(all[t] == k);
                } else {
                    assert(all[all.len() - 1] == k);
                }
            }
        }
    }
}

/// A player is inside an entrance exactly when some entrance strictly holds it,
/// whatever it was before; it goes through no entrance when it was inside one
/// before, and otherwise through exactly the entrances that hold it.
pub proof fn lemma_visit_exactly(
    inside_before: bool,
    entrances: Seq<LevelPositional>,
    player: PixelCoords,
)
    requires
        entrances.len() <= usize::MAX,
    ensures
        spec_visit(inside_before, entrances, player).0 <==> exists|k: int|
            0 <= k < entrances.len() && #[trigger] entrances[k].px.x < player.x && player.x
                < entrances[k].px.x + entrances[k].width && entrances[k].px.y < player.y && player.y
                < entrances[k].px.y + entrances[k].height,
        inside_before ==> spec_visit(inside_before, entrances, player).1.len() == 0,
        !inside_before ==> forall|k: usize| #[trigger]
            spec_visit(inside_before, entrances, player).1.contains(k) <==> (k < entrances.len()
                && entrances[k as int].px.x < player.x && player.x < entrances[k as int].px.x
                + entrances[k as int].width && entrances[k as int].px.y < player.y && player.y
                < entrances[k as int].px.y + entrances[k as int].height),
{
    lemma_areas_holding_exactly(entrances, player);
    let found = areas_holding(entrances, player);
    if found.len() > 0 {
        assert(found.contains(found[0]));
    }
    if exists|k: int|
        0 <= k < entrances.len() && #[trigger] entrances[k].px.x < player.x && player.x
            < entrances[k].px.x + entrances[k].width && entrances[k].px.y < player.y && player.y
            < entrances[k].px.y + entrances[k].height {
        let k = choose|k: int|
            0 <= k < entrances.len() && #[trigger] entrances[k].px.x < player.x && player.x
                < entrances[k].px.x + entrances[k].width && entrances[k].px.y < player.y && player.y
                < entrances[k].px.y + entrances[k].height;
        assert(found.contains(k as usize));
    }
}

/// The entity that a building entrance reference names: the first of the
/// level's entities whose identifier is `iid`.
pub fn find_entity_by_iid(iid: &String, entity_iids: &Vec<String>) -> (r: Option<usize>)
    ensures
        match r {
            Some(k) => k < entity_iids.len() && entity_iids[k as int]@ == iid@ && forall|j: int|
                0 <= j < k ==> entity_iids[j]@ != iid@,
            None => forall|j: int| 0 <= j < entity_iids.len() ==> entity_iids[j]@ != iid@,
        },
{
    let mut i: usize = 0;
    while i < entity_iids.len()
        invariant
            i <= entity_iids.len(),
            forall|j: int| 0 <= j < i ==> entity_iids[j]@ != iid@,
        decreases entity_iids.len() - i,
    {
        if entity_iids[i] == *iid {
            return Some(i);
        }
        i = i + 1;
    }
    None
}

} // verus!
