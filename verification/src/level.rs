//! Measurements and collision cells of an LDtk level.
use crate::coords::{index_to_coords, index_to_coords_fits, int_grid_index_to_grid_coords, GridCoords};
use itertools::Itertools;
use std::collections::HashSet;
use vstd::prelude::*;

verus! {

broadcast use {vstd::std_specs::hash::group_hash_axioms, vstd::string::group_string_axioms};

/// Sizes of the current level: in pixels, in cells, and of one cell.
#[derive(Debug, Default, Clone, Copy, PartialEq, Eq, Hash, Structural)]
pub struct LevelMeasurements {
    pub px_wid: u32,
    pub px_hei: u32,
    pub c_wid: u32,
    pub c_hei: u32,
    pub grid_size: u32,
}

/// The parts of an LDtk layer instance that the level logic reads.
pub struct LayerInstance {
    pub identifier: String,
    pub c_wid: i32,
    pub c_hei: i32,
    pub grid_size: i32,
    pub int_grid_csv: Vec<i32>,
}

/// Why a level's data cannot be read.
#[derive(Debug, Clone, Copy, PartialEq, Eq, Structural)]
pub enum LevelError {
    /// The level keeps its layers in separate files.
    NoLayerInstances,
    NegativeLevelWidth,
    NegativeLevelHeight,
    NegativeLayerWidth,
    NegativeLayerHeight,
    NegativeGridSize,
    /// The layers do not all have one and the same measurements (or there is none).
    MeasurementsNotUnique,
    /// There is not exactly one layer named "Collisions".
    CollisionsLayerNotUnique,
    /// A cell of the collisions layer holds a negative value.
    NegativeCellValue,
}

/// The values in the order of their first appearance, each once.
pub open spec fn first_occurrences<T>(s: Seq<T>) -> Seq<T>
    decreases s.len(),
{
    if s.len() == 0 {
        s
    } else {
        let rest = first_occurrences(s.drop_last());
        if rest.contains(s.last()) {
            rest
        } else {
            rest.push(s.last())
        }
    }
}

/// Calls `itertools::Itertools::unique`, which keeps the first of equal values
/// and their order: the result holds each value of `v` once, in the order of
/// first appearance.
#[verifier::external_body]
fn unique_measures(v: Vec<(u32, u32, u32)>) -> (r: Vec<(u32, u32, u32)>)
    ensures
        r@ == first_occurrences(v@),
{
    v.into_iter().unique().collect()
}

/// Calls `itertools::Itertools::exactly_one`: the single element of `v`, or
/// `None` when `v` has none or more than one.
#[verifier::external_body]
fn exactly_one<T>(v: Vec<T>) -> (r: Option<T>)
    ensures
        v@.len() == 1 ==> r == Some(v@[0]),
        v@.len() != 1 ==> r is None,
{
    v.into_iter().exactly_one().ok()
}

/// The first negative size of a layer: width before height before cell size.
pub open spec fn layer_error(layer: LayerInstance) -> Option<LevelError> {
    if layer.c_wid < 0 {
        Some(LevelError::NegativeLayerWidth)
    } else if layer.c_hei < 0 {
        Some(LevelError::NegativeLayerHeight)
    } else if layer.grid_size < 0 {
        Some(LevelError::NegativeGridSize)
    } else {
        None
    }
}

/// A layer's cell width, height and size.
pub open spec fn layer_measure(layer: LayerInstance) -> (u32, u32, u32) {
    (layer.c_wid as u32, layer.c_hei as u32, layer.grid_size as u32)
}

/// The layers from position `k` on, read one by one in order, having seen the
/// measurements `first` so far: the first layer with a negative size stops the
/// reading with its error, and so does the first layer whose measurements
/// differ from `first`, as `MeasurementsNotUnique`; layers after that are not
/// read. At the end, the one measurement seen, or `MeasurementsNotUnique`
/// when there was no layer.
pub open spec fn scan_layers(layers: Seq<LayerInstance>, k: int, first: Option<(u32, u32, u32)>) -> Result<
    (u32, u32, u32),
    LevelError,
>
    decreases layers.len() - k,
{
    if k < 0 || k >= layers.len() {
        match first {
            Some(m) => Ok(m),
            None => Err(LevelError::MeasurementsNotUnique),
        }
    } else {
        match layer_error(layers[k]) {
            Some(e) => Err(e),
            None => match first {
                None => scan_layers(layers, k + 1, Some(layer_measure(layers[k]))),
                Some(f) => if layer_measure(layers[k]) == f {
                    scan_layers(layers, k + 1, first)
                } else {
                    Err(LevelError::MeasurementsNotUnique)
                },
            },
        }
    }
}

/// What [`level_measurements`] gives for a level of `px_wid` by `px_hei` pixels.
pub open spec fn spec_level_measurements(
    px_wid: i32,
    px_hei: i32,
    layer_instances: Option<Seq<LayerInstance>>,
) -> Result<LevelMeasurements, LevelError> {
    if px_wid < 0 {
        Err(LevelError::NegativeLevelWidth)
    } else if px_hei < 0 {
        Err(LevelError::NegativeLevelHeight)
    } else {
        match layer_instances {
            None => Err(LevelError::NoLayerInstances),
            Some(layers) => match scan_layers(layers, 0, None) {
                Ok((c_wid, c_hei, grid_size)) => Ok(
                    LevelMeasurements {
                        px_wid: px_wid as u32,
                        px_hei: px_hei as u32,
                        c_wid,
                        c_hei,
                        grid_size,
                    },
                ),
                Err(e) => Err(e),
            },
        }
    }
}

pub open spec fn layers_view(layer_instances: &Option<Vec<LayerInstance>>) -> Option<
    Seq<LayerInstance>,
> {
    match layer_instances {
        Some(v) => Some(v@),
        None => None,
    }
}

/// A sequence has one value, once, exactly when it is not empty and all its
/// elements are equal.
proof fn lemma_one_value<T>(s: Seq<T>)
    ensures
        first_occurrences(s).len() == 1 <==> (s.len() >= 1 && forall|i: int|
            0 <= i < s.len() ==> #[trigger] s[i] == s[0]),
        s.len() >= 1 ==> first_occurrences(s).len() >= 1 && first_occurrences(s)[0] == s[0],
        forall|x: T| #[trigger] first_occurrences(s).contains(x) <==> s.contains(x),
    decreases s.len(),
{
    if s.len() > 0 {
        let p = s.drop_last();
        assert(s =~= p.push(s.last()));
        lemma_one_value(p);
        let rest = first_occurrences(p);
        if p.len() == 0 {
            assert(rest.len() == 0);
            assert(first_occurrences(s) =~= seq![s.last()]);
        } else {
            assert(p[0] == s[0]);
            if forall|i: int| 0 <= i < p.len() ==> #[trigger] p[i] == p[0] {
                assert(rest.len() == 1);
                assert(rest.contains(rest[0]));
                if s.last() == s[0] {
                    assert(rest.contains(s.last()));
                    assert forall|i: int| 0 <= i < s.len() implies #[trigger] s[i] == s[0] by {
                        if i < p.len() {
                            assert(p[i] == s[i]);
                        }
                    }
                } else {
                    assert(!p.contains(s.last())) by {
                        if p.contains(s.last()) {
                            let j = choose|j: int| 0 <= j < p.len() && p[j] == s.last();
                            assert(p[j] == p[0]);
                        }
                    }
                    assert(first_occurrences(s).len() == 2);
                    assert(s[s.len() - 1] != s[0]);
                }
            } else {
                let j = choose|j: int| 0 <= j < p.len() && #[trigger] p[j] != p[0];
                assert(s[j] != s[0]);
                assert(rest.len() != 1);
                assert(first_occurrences(s).len() >= rest.len());
                assert(rest.len() >= 1);
            }
        }
        assert forall|x: T| #[trigger] first_occurrences(s).contains(x) <==> s.contains(x) by {
            let f = first_occurrences(s);
            if s.contains(x) {
                let j = choose|j: int| 0 <= j < s.len() && s[j] == x;
                if j < p.len() {
                    assert(p[j] == x);
                    assert(p.contains(x));
                    assert(rest.contains(x));
                    let k = choose|k: int| 0 <= k < rest.len() && rest[k] == x;
                    if !rest.contains(s.last()) {
                        assert(f[k] == x);
                    }
                } else {
                    assert(x == s.last());
                    if !rest.contains(s.last()) {
                        assert(f[f.len() - 1] == x);
                    }
                }
            }
            if f.contains(x) {
                let k = choose|k: int| 0 <= k < f.len() && f[k] == x;
                if k < rest.len() {
                    assert(rest[k] == x);
                    assert(rest.contains(x));
                    assert(p.contains(x));
                    let j = choose|j: int| 0 <= j < p.len() && p[j] == x;
                    assert(s[j] == x);
                } else {
                    assert(x == s.last());
                    assert(s[s.len() - 1] == x);
                }
            }
        }
    }
}

/// Reads the measurements of a level of `px_wid` by `px_hei` pixels from its
/// layers, all of which must have the same cell width, height and size; the
/// layers are read in order and only as far as [`scan_layers`] says.
pub fn level_measurements(px_wid: i32, px_hei: i32, layer_instances: &Option<Vec<LayerInstance>>) -> (r:
    Result<LevelMeasurements, LevelError>)
    ensures
        r == spec_level_measurements(px_wid, px_hei, layers_view(layer_instances)),
{
    if px_wid < 0 {
        return Err(LevelError::NegativeLevelWidth);
    }
    if px_hei < 0 {
        return Err(LevelError::NegativeLevelHeight);
    }
    let layers = match layer_instances {
        Some(layers) => layers,
        None => {
            return Err(LevelError::NoLayerInstances);
        },
    };
    // the layers are read one by one, as far as telling whether they have one
    // and the same measurements needs
    let mut measures: Vec<(u32, u32, u32)> = Vec::new();
    let mut i: usize = 0;
    let mut differs = false;
    while i < layers.len() && !differs
        invariant
            i <= layers.len(),
            px_wid >= 0,
            px_hei >= 0,
            layers_view(layer_instances) == Some(layers@),
            differs ==> scan_layers(layers@, 0, None) == Err::<(u32, u32, u32), LevelError>(
                LevelError::MeasurementsNotUnique,
            ),
            differs ==> measures.len() >= 2 && measures[measures.len() - 1] != measures[0],
            !differs ==> scan_layers(layers@, 0, None) == scan_layers(
                layers@,
                i as int,
                if measures.len() == 0 {
                    None
                } else {
                    Some(measures[0])
                },
            ),
            !differs ==> measures.len() == i,
            !differs ==> forall|k: int| 0 <= k < measures.len() ==> #[trigger] measures[k] == measures[0],
        decreases layers.len() - i,
    {
        let layer = &layers[i];
        if layer.c_wid < 0 {
            return Err(LevelError::NegativeLayerWidth);
        }
        if layer.c_hei < 0 {
            return Err(LevelError::NegativeLayerHeight);
        }
        if layer.grid_size < 0 {
            return Err(LevelError::NegativeGridSize);
        }
        let m = (layer.c_wid as u32, layer.c_hei as u32, layer.grid_size as u32);
        assert(m == layer_measure(layers@[i as int]));
        if measures.len() > 0 {
            let f = measures[0];
            if m.0 != f.0 || m.1 != f.1 || m.2 != f.2 {
                differs = true;
            }
        }
        measures.push(m);
        i = i + 1;
    }
    let ghost ms = measures@;
    proof {
        lemma_one_value(ms);
        if !differs {
            assert(i == layers.len());
        }
    }
    let distinct = unique_measures(measures);
    match exactly_one(distinct) {
        Some((c_wid, c_hei, grid_size)) => Ok(
            LevelMeasurements {
                px_wid: px_wid as u32,
                px_hei: px_hei as u32,
                c_wid,
                c_hei,
                grid_size,
            },
        ),
        None => Err(LevelError::MeasurementsNotUnique),
    }
}

/// Layers from `k` on that all have non-negative sizes and the measurements
/// `f` are read to the end, giving `f`.
proof fn lemma_scan_uniform(layers: Seq<LayerInstance>, k: int, f: (u32, u32, u32))
    requires
        0 <= k <= layers.len(),
        forall|i: int|
            k <= i < layers.len() ==> #[trigger] layers[i].c_wid >= 0 && layers[i].c_hei >= 0
                && layers[i].grid_size >= 0 && (layers[i].c_wid as u32, layers[i].c_hei as u32,
                layers[i].grid_size as u32) == f,
    ensures
        scan_layers(layers, k, Some(f)) == Ok::<(u32, u32, u32), LevelError>(f),
    decreases layers.len() - k,
{
    if k < layers.len() {
        assert(layers[k].c_wid >= 0);
        lemma_scan_uniform(layers, k + 1, f);
    }
}

/// A successful reading from `k` on has seen only layers with non-negative
/// sizes and the measurements it gives, and at least one layer in all.
proof fn lemma_scan_ok(layers: Seq<LayerInstance>, k: int, first: Option<(u32, u32, u32)>)
    requires
        0 <= k <= layers.len(),
    ensures
        scan_layers(layers, k, first) matches Ok(f) ==> {
            &&& first matches Some(g) ==> g == f
            &&& first is None ==> k < layers.len()
            &&& forall|i: int|
                k <= i < layers.len() ==> #[trigger] layers[i].c_wid >= 0 && layers[i].c_hei >= 0
                    && layers[i].grid_size >= 0 && (layers[i].c_wid as u32, layers[i].c_hei as u32,
                    layers[i].grid_size as u32) == f
        },
    decreases layers.len() - k,
{
    if k < layers.len() {
        let m = (layers[k].c_wid as u32, layers[k].c_hei as u32, layers[k].grid_size as u32);
        match first {
            None => lemma_scan_ok(layers, k + 1, Some(m)),
            Some(_) => lemma_scan_ok(layers, k + 1, first),
        }
    }
}

/// A level whose size is not negative and whose layers, of which there is at
/// least one, all have the same non-negative cell width, height and size has
/// those measurements, with its pixel size.
pub proof fn lemma_uniform_layers_measured(px_wid: i32, px_hei: i32, layers: Seq<LayerInstance>)
    requires
        px_wid >= 0,
        px_hei >= 0,
        layers.len() > 0,
        forall|i: int|
            0 <= i < layers.len() ==> #[trigger] layers[i].c_wid >= 0 && layers[i].c_hei >= 0
                && layers[i].grid_size >= 0,
        forall|i: int|
            0 <= i < layers.len() ==> #[trigger] layers[i].c_wid == layers[0].c_wid
                && layers[i].c_hei == layers[0].c_hei && layers[i].grid_size == layers[0].grid_size,
    ensures
        spec_level_measurements(px_wid, px_hei, Some(layers)) == Ok::<
            LevelMeasurements,
            LevelError,
        >(
            LevelMeasurements {
                px_wid: px_wid as u32,
                px_hei: px_hei as u32,
                c_wid: layers[0].c_wid as u32,
                c_hei: layers[0].c_hei as u32,
                grid_size: layers[0].grid_size as u32,
            },
        ),
{
    let f = (layers[0].c_wid as u32, layers[0].c_hei as u32, layers[0].grid_size as u32);
    assert(layers[0].c_wid >= 0);
    lemma_scan_uniform(layers, 1, f);
}

/// A level is measured only when its size is not negative, it has at least one
/// layer, and every layer has non-negative sizes equal to the measurements
/// given, along with the level's pixel size.
pub proof fn lemma_measured_layers_agree(
    px_wid: i32,
    px_hei: i32,
    layer_instances: Option<Seq<LayerInstance>>,
)
    ensures
        spec_level_measurements(px_wid, px_hei, layer_instances) matches Ok(m) ==> {
            &&& px_wid >= 0 && px_hei >= 0
            &&& m.px_wid == px_wid && m.px_hei == px_hei
            &&& layer_instances matches Some(layers) && layers.len() > 0 && forall|i: int|
                0 <= i < layers.len() ==> #[trigger] layers[i].c_wid >= 0 && layers[i].c_hei >= 0
                    && layers[i].grid_size >= 0 && layers[i].c_wid as u32 == m.c_wid
                    && layers[i].c_hei as u32 == m.c_hei && layers[i].grid_size as u32
                    == m.grid_size
        },
{
    if let Some(layers) = layer_instances {
        lemma_scan_ok(layers, 0, None);
    }
}

/// The layer that holds the collision cells.
pub open spec fn is_collisions_layer(layer: LayerInstance) -> bool {
    layer.identifier@ == "Collisions"@
}

/// The positions of the collisions layers among `layers`, in order.
pub open spec fn collisions_layer_indices(layers: Seq<LayerInstance>) -> Seq<usize>
    decreases layers.len(),
{
    if layers.len() == 0 {
        seq![]
    } else {
        let before = collisions_layer_indices(layers.drop_last());
        if is_collisions_layer(layers.last()) {
            before.push((layers.len() - 1) as usize)
        } else {
            before
        }
    }
}

/// The cells whose value is 1, by their position (cut to `u32`) in the row-major `csv`.
pub open spec fn collision_cells(csv: Seq<i32>) -> Set<usize> {
    Set::new(
        |c: usize|
            exists|i: int| 0 <= i < csv.len() && #[trigger] csv[i] == 1 && c == (i as u32) as usize,
    )
}

/// What [`collisions_from_layers`] gives.
pub open spec fn spec_collisions(layer_instances: Option<Seq<LayerInstance>>) -> Result<
    Set<usize>,
    LevelError,
> {
    match layer_instances {
        None => Err(LevelError::NoLayerInstances),
        Some(layers) => {
            let found = collisions_layer_indices(layers);
            if found.len() != 1 {
                Err(LevelError::CollisionsLayerNotUnique)
            } else {
                let csv = layers[found[0] as int].int_grid_csv@;
                if exists|i: int| 0 <= i < csv.len() && #[trigger] csv[i] < 0 {
                    Err(LevelError::NegativeCellValue)
                } else {
                    Ok(collision_cells(csv))
                }
            }
        },
    }
}

pub open spec fn cells_view(r: Result<HashSet<usize>, LevelError>) -> Result<Set<usize>, LevelError> {
    match r {
        Ok(cells) => Ok(cells@),
        Err(e) => Err(e),
    }
}

/// The collision cells of a level: the cells holding 1 in its only layer named
/// "Collisions".
pub fn collisions_from_layers(layer_instances: &Option<Vec<LayerInstance>>) -> (r: Result<
    HashSet<usize>,
    LevelError,
>)
    ensures
        cells_view(r) == spec_collisions(layers_view(layer_instances)),
{
    let layers = match layer_instances {
        Some(layers) => layers,
        None => {
            return Err(LevelError::NoLayerInstances);
        },
    };
    let collisions_name = "Collisions".to_string();
    let mut found: Vec<usize> = Vec::new();
    let mut i: usize = 0;
    while i < layers.len()
        invariant
            i <= layers.len(),
            collisions_name@ == "Collisions"@,
            found@ == collisions_layer_indices(layers@.take(i as int)),
        decreases layers.len() - i,
    {
        assert(layers@.take(i + 1).drop_last() =~= layers@.take(i as int));
        if layers[i].identifier == collisions_name {
            found.push(i);
        }
        i = i + 1;
    }
    assert(layers@.take(layers.len() as int) =~= layers@);
    let ghost found_view = found@;
    let index = match exactly_one(found) {
        Some(index) => index,
        None => {
            return Err(LevelError::CollisionsLayerNotUnique);
        },
    };
    proof {
        lemma_collisions_indices_in_range(layers@);
        assert(found_view[0] == index);
    }
    let csv = &layers[index].int_grid_csv;
    assert(csv@ == layers@[found_view[0] as int].int_grid_csv@);
    let mut cells: HashSet<usize> = HashSet::new();
    let mut j: usize = 0;
    while j < csv.len()
        invariant
            j <= csv.len(),
            layers_view(layer_instances) == Some(layers@),
            collisions_layer_indices(layers@) == found_view,
            found_view.len() == 1,
            csv@ == layers@[found_view[0] as int].int_grid_csv@,
            forall|k: int| 0 <= k < j ==> #[trigger] csv@[k] >= 0,
            cells@ == Set::new(
                |c: usize|
                    exists|k: int|
                        0 <= k < j && #[trigger] csv@[k] == 1 && c == (k as u32) as usize,
            ),
        decreases csv.len() - j,
    {
        let value = csv[j];
        if value < 0 {
            assert(csv@[j as int] < 0);
            return Err(LevelError::NegativeCellValue);
        }
        let ghost before = cells@;
        if value == 1 {
            cells.insert(j as u32 as usize);
        }
        assert(cells@ =~= Set::new(
            |c: usize|
                exists|k: int| 0 <= k < j + 1 && #[trigger] csv@[k] == 1 && c == (k as u32) as usize,
        )) by {
            assert forall|c: usize|
                cells@.contains(c) <==> exists|k: int|
                    0 <= k < j + 1 && #[trigger] csv@[k] == 1 && c == (k as u32) as usize by {
                if exists|k: int|
                    0 <= k < j + 1 && #[trigger] csv@[k] == 1 && c == (k as u32) as usize {
                    let k = choose|k: int|
                        0 <= k < j + 1 && #[trigger] csv@[k] == 1 && c == (k as u32) as usize;
                    if k < j {
                        assert(before.contains(c));
                    }
                }
            }
        }
        j = j + 1;
    }
    assert(csv@ == layers@[found_view[0] as int].int_grid_csv@);
    assert(cells@ =~= collision_cells(csv@));
    Ok(cells)
}

/// The collisions layers' positions lie within the layers.
proof fn lemma_collisions_indices_in_range(layers: Seq<LayerInstance>)
    ensures
        forall|k: int|
            0 <= k < collisions_layer_indices(layers).len() ==> #[trigger] collisions_layer_indices(
                layers,
            )[k] < layers.len(),
    decreases layers.len(),
{
    if layers.len() > 0 {
        let p = layers.drop_last();
        lemma_collisions_indices_in_range(p);
        let f = collisions_layer_indices(layers);
        let g = collisions_layer_indices(p);
        assert forall|k: int| 0 <= k < f.len() implies #[trigger] f[k] < layers.len() by {
            if k < g.len() {
                assert(f[k] == g[k]);
            }
        }
    }
}

/// Layers none of which is named "Collisions" have no collisions layer.
proof fn lemma_no_collisions_layer(layers: Seq<LayerInstance>)
    requires
        forall|k: int| 0 <= k < layers.len() ==> #[trigger] layers[k].identifier@ != "Collisions"@,
    ensures
        collisions_layer_indices(layers).len() == 0,
    decreases layers.len(),
{
    if layers.len() > 0 {
        let p = layers.drop_last();
        assert forall|k: int| 0 <= k < p.len() implies #[trigger] p[k].identifier@
            != "Collisions"@ by {
            assert(p[k] == layers[k]);
        }
        lemma_no_collisions_layer(p);
        assert(layers[layers.len() - 1].identifier@ != "Collisions"@);
    }
}

/// Layers of which only the one at `j` is named "Collisions" have that one
/// collisions layer.
proof fn lemma_single_collisions_layer(layers: Seq<LayerInstance>, j: int)
    requires
        0 <= j < layers.len() <= usize::MAX,
        layers[j].identifier@ == "Collisions"@,
        forall|k: int|
            0 <= k < layers.len() && k != j ==> #[trigger] layers[k].identifier@ != "Collisions"@,
    ensures
        collisions_layer_indices(layers) == seq![j as usize],
    decreases layers.len(),
{
    let p = layers.drop_last();
    if j == layers.len() - 1 {
        assert forall|k: int| 0 <= k < p.len() implies #[trigger] p[k].identifier@
            != "Collisions"@ by {
            assert(p[k] == layers[k]);
        }
        lemma_no_collisions_layer(p);
        assert(collisions_layer_indices(layers) =~= seq![j as usize]);
    } else {
        assert(p[j] == layers[j]);
        assert forall|k: int| 0 <= k < p.len() && k != j implies #[trigger] p[k].identifier@
            != "Collisions"@ by {
            assert(p[k] == layers[k]);
        }
        lemma_single_collisions_layer(p, j);
        assert(layers[layers.len() - 1].identifier@ != "Collisions"@);
    }
}

/// A level whose one layer named "Collisions" holds no negative value has as
/// collision cells exactly the positions, counted from zero, of the values 1 in
/// that layer (for a layer of at most `u32::MAX + 1` cells, so that positions
/// are not cut).
pub proof fn lemma_collisions_exactly(layers: Seq<LayerInstance>, j: int)
    requires
        0 <= j < layers.len() <= usize::MAX,
        layers[j].identifier@ == "Collisions"@,
        forall|k: int|
            0 <= k < layers.len() && k != j ==> #[trigger] layers[k].identifier@ != "Collisions"@,
        forall|i: int|
            0 <= i < layers[j].int_grid_csv@.len() ==> #[trigger] layers[j].int_grid_csv@[i] >= 0,
        layers[j].int_grid_csv@.len() <= u32::MAX + 1,
    ensures
        spec_collisions(Some(layers)) matches Ok(cells) && forall|c: usize| #[trigger]
            cells.contains(c) <==> (c < layers[j].int_grid_csv@.len()
                && layers[j].int_grid_csv@[c as int] == 1),
{
    lemma_single_collisions_layer(layers, j);
    let csv = layers[j].int_grid_csv@;
    let cells = collision_cells(csv);
    assert forall|c: usize| #[trigger]
        cells.contains(c) <==> (c < csv.len() && csv[c as int] == 1) by {
        if c < csv.len() && csv[c as int] == 1 {
            let i = c as int;
            assert((i as u32) as usize == c);
            assert(csv[i] == 1);
        }
        if cells.contains(c) {
            let i = choose|i: int| 0 <= i < csv.len() && #[trigger] csv[i] == 1 && c == (i as u32)
                as usize;
            assert((i as u32) as usize == i);
        }
    }
}

/// A collision cell, by its LDtk row-major index.
#[derive(Debug, Default, Clone, Copy, PartialEq, Eq, Hash, Structural)]
pub struct CollisionIndex(pub usize);

/// The grid cell of a collision cell, counted in cells of `grid_size` pixels
/// over the level's pixel width and height.
pub fn collision_grid_coords(
    level_measurements: &LevelMeasurements,
    collision_index: &CollisionIndex,
) -> (r: Option<GridCoords>)
    requires
        level_measurements.grid_size > 0,
        index_to_coords_fits(
            collision_index.0,
            level_measurements.px_wid / level_measurements.grid_size,
            level_measurements.px_hei / level_measurements.grid_size,
        ),
    ensures
        r == index_to_coords(
            collision_index.0,
            level_measurements.px_wid / level_measurements.grid_size,
            level_measurements.px_hei / level_measurements.grid_size,
        ),
{
    int_grid_index_to_grid_coords(
        collision_index.0,
        level_measurements.px_wid / level_measurements.grid_size,
        level_measurements.px_hei / level_measurements.grid_size,
    )
}

/// The height of a level in pixels, unless it is negative.
pub fn level_height(px_hei: i32) -> (r: Option<u32>)
    ensures
        r == (if px_hei < 0 {
            None
        } else {
            Some(px_hei as u32)
        }),
{
    if px_hei < 0 {
        None
    } else {
        Some(px_hei as u32)
    }
}

} // verus!
