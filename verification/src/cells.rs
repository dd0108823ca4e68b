//! A sparse set of cells with 32-bit signed coordinates.
//!
//! The cells are kept in a hash set of `u64` keys. The cell `(x, y)` is stored
//! under the key whose high half is `x - i32::MIN` and whose low half is
//! `y - i32::MIN`, so that cells and keys correspond one to one.

use std::collections::HashSet;
use vstd::prelude::*;
use vstd::std_specs::iter::IteratorSpec;
use crate::generation::boxed;

verus! {

broadcast use vstd::std_specs::hash::group_hash_axioms;

/// Whether `v` can be a coordinate of a stored cell.
pub open spec fn in_range(v: int) -> bool {
    i32::MIN <= v <= i32::MAX
}

/// The key under which the cell `(x, y)` is stored.
spec fn key_of(x: int, y: int) -> int {
    (x + 0x8000_0000) * 0x1_0000_0000 + (y + 0x8000_0000)
}

/// The `x` coordinate of the cell stored under `k`.
spec fn key_x(k: int) -> int {
    k / 0x1_0000_0000 - 0x8000_0000
}

/// The `y` coordinate of the cell stored under `k`.
spec fn key_y(k: int) -> int {
    k % 0x1_0000_0000 - 0x8000_0000
}

/// The cells stored under a set of keys.
spec fn cells_of(keys: Set<u64>) -> Set<(int, int)> {
    Set::new(
        |c: (int, int)| in_range(c.0) && in_range(c.1) && keys.contains(key_of(c.0, c.1) as u64),
    )
}

/// Every cell in range has a key that fits in `u64`, and the key gives the
/// cell back.
proof fn lemma_key_of_cell(x: int, y: int)
    requires
        in_range(x),
        in_range(y),
    ensures
        0 <= key_of(x, y) <= u64::MAX,
        key_x(key_of(x, y)) == x,
        key_y(key_of(x, y)) == y,
{
}

/// Every `u64` is the key of exactly the cell it decodes to, and that cell is
/// in range.
proof fn lemma_cell_of_key(k: int)
    requires
        0 <= k <= u64::MAX,
    ensures
        in_range(key_x(k)),
        in_range(key_y(k)),
        key_of(key_x(k), key_y(k)) == k,
{
}

/// Storing the key of a cell adds that cell and no other.
proof fn lemma_insert_key(keys: Set<u64>, x: int, y: int)
    requires
        in_range(x),
        in_range(y),
    ensures
        cells_of(keys.insert(key_of(x, y) as u64)) == cells_of(keys).insert((x, y)),
{
    lemma_key_of_cell(x, y);
    assert forall|c: (int, int)|
        cells_of(keys.insert(key_of(x, y) as u64)).contains(c) <==> cells_of(keys).insert(
            (x, y),
        ).contains(c) by {
        if in_range(c.0) && in_range(c.1) {
            lemma_key_of_cell(c.0, c.1);
        }
    }
}

/// Two sets of keys store the same cells only if they are the same set.
proof fn lemma_cells_determine_keys(a: Set<u64>, b: Set<u64>)
    ensures
        (cells_of(a) == cells_of(b)) == (a == b),
{
    if cells_of(a) == cells_of(b) {
        assert forall|k: u64| a.contains(k) <==> b.contains(k) by {
            lemma_cell_of_key(k as int);
            let c = (key_x(k as int), key_y(k as int));
            assert(cells_of(a).contains(c) <==> a.contains(k));
            assert(cells_of(b).contains(c) <==> b.contains(k));
        }
        assert(a =~= b);
    }
}

/// Every key that a hash set holds occurs in the sequence its iterator
/// walks, and the other way round.
proof fn lemma_walk_covers(keys: &HashSet<u64>)
    ensures
        forall|k: u64|
            keys@.contains(k) <==> exists|i: int|
                0 <= i < keys.iter().remaining().len() && *#[trigger] keys.iter().remaining()[i]
                    == k,
        keys@.finite(),
{
    let walk = keys.iter().remaining();
    vstd::seq_lib::seq_to_set_is_finite(walk.unref());
    assert forall|k: u64|
        (exists|i: int| 0 <= i < walk.len() && *#[trigger] walk[i] == k) implies keys@.contains(
        k,
    ) by {
        let i = choose|i: int| 0 <= i < walk.len() && *#[trigger] walk[i] == k;
        assert(walk.unref()[i] == k);
    }
}

/// The key of the cell `(x, y)`.
fn encode(x: i32, y: i32) -> (k: u64)
    ensures
        k == key_of(x as int, y as int),
{
    proof {
        lemma_key_of_cell(x as int, y as int);
    }
    let high: u64 = (x as i64 + 0x8000_0000) as u64;
    let low: u64 = (y as i64 + 0x8000_0000) as u64;
    high * 0x1_0000_0000 + low
}

/// The cell stored under the key `k`.
fn decode(k: u64) -> (c: (i32, i32))
    ensures
        c.0 == key_x(k as int),
        c.1 == key_y(k as int),
{
    proof {
        lemma_cell_of_key(k as int);
    }
    let x: i32 = ((k / 0x1_0000_0000) as i64 - 0x8000_0000) as i32;
    let y: i32 = ((k % 0x1_0000_0000) as i64 - 0x8000_0000) as i32;
    (x, y)
}

/// Whether `b`, as `(min_x, min_y, max_x, max_y)`, is the smallest box around
/// the cells of the first `n` keys of `keys`.
spec fn spans(keys: Seq<&u64>, n: int, b: (i32, i32, i32, i32)) -> bool {
    &&& forall|i: int|
        0 <= i < n ==> b.0 <= key_x(*#[trigger] keys[i] as int) <= b.2 && b.1 <= key_y(
            *keys[i] as int,
        ) <= b.3
    &&& exists|i: int| 0 <= i < n && key_x(*#[trigger] keys[i] as int) == b.0
    &&& exists|i: int| 0 <= i < n && key_y(*#[trigger] keys[i] as int) == b.1
    &&& exists|i: int| 0 <= i < n && key_x(*#[trigger] keys[i] as int) == b.2
    &&& exists|i: int| 0 <= i < n && key_y(*#[trigger] keys[i] as int) == b.3
}

/// The smallest box around the cells of all the keys of a hash set is the
/// tight bounding box of the cells that the set stores.
proof fn lemma_spanned_is_tight(keys: &HashSet<u64>, b: (i32, i32, i32, i32))
    requires
        spans(keys.iter().remaining(), keys.iter().remaining().len() as int, b),
    ensures
        !cells_of(keys@).is_empty(),
        boxed(cells_of(keys@), b).is_tight(),
{
    let walk = keys.iter().remaining();
    let tight = boxed(cells_of(keys@), b);
    lemma_walk_covers(keys);
    assert forall|i: int| 0 <= i < walk.len() implies tight.live.contains(
        (key_x(*#[trigger] walk[i] as int), key_y(*walk[i] as int)),
    ) by {
        lemma_cell_of_key(*walk[i] as int);
    }
    assert forall|c: (int, int)| #[trigger] tight.live.contains(c) implies tight.in_box(
        c.0,
        c.1,
    ) by {
        lemma_key_of_cell(c.0, c.1);
    }
}

/// A set of cells. Its view is the set of their coordinate pairs.
#[derive(Debug)]
pub struct CellSet {
    keys: HashSet<u64>,
}

impl View for CellSet {
    type V = Set<(int, int)>;

    closed spec fn view(&self) -> Set<(int, int)> {
        cells_of(self.keys@)
    }
}

impl CellSet {
    /// The set without cells.
    pub fn new() -> (cells: Self)
        ensures
            cells@ == Set::<(int, int)>::empty(),
    {
        CellSet { keys: HashSet::new() }
    }

    /// Adds the cell `(x, y)`.
    pub fn insert(&mut self, x: i32, y: i32)
        ensures
            final(self)@ == old(self)@.insert((x as int, y as int)),
    {
        proof {
            lemma_insert_key(self.keys@, x as int, y as int);
        }
        self.keys.insert(encode(x, y));
    }

    /// Whether the cell `(x, y)` is in the set.
    pub fn contains(&self, x: i32, y: i32) -> (held: bool)
        ensures
            held == self@.contains((x as int, y as int)),
    {
        let key = encode(x, y);
        self.keys.contains(&key)
    }

    /// The tight bounding box of the cells as `(min_x, min_y, max_x, max_y)`,
    /// or `None` if the set has no cell.
    pub fn extrema(&self) -> (bounds: Option<(i32, i32, i32, i32)>)
        ensures
            bounds is None <==> self@.is_empty(),
            bounds is Some ==> boxed(self@, bounds->0).is_tight(),
    {
        let mut bounds: Option<(i32, i32, i32, i32)> = None;
        for key in it: self.keys.iter()
            invariant
                bounds is None <==> it.index() == 0,
                bounds is Some ==> spans(it.seq(), it.index(), bounds->0),
        {
            let (x, y) = decode(*key);
            match bounds {
                None => {
                    bounds = Some((x, y, x, y));
                },
                Some((min_x, min_y, max_x, max_y)) => {
                    bounds = Some(
                        (
                            if x < min_x { x } else { min_x },
                            if y < min_y { y } else { min_y },
                            if x > max_x { x } else { max_x },
                            if y > max_y { y } else { max_y },
                        ),
                    );
                },
            }
        }
        proof {
            lemma_walk_covers(&self.keys);
            if bounds is Some {
                lemma_spanned_is_tight(&self.keys, bounds->0);
            }
        }
        bounds
    }

    /// Every cell of the set has coordinates in range.
    pub proof fn lemma_in_range(&self)
        ensures
            forall|c: (int, int)| #[trigger] self@.contains(c) ==> in_range(c.0) && in_range(c.1),
    {
    }
}

impl Clone for CellSet {
    /// A set with the same cells.
    fn clone(&self) -> (copy: Self)
        ensures
            copy@ == self@,
    {
        let mut keys: HashSet<u64> = HashSet::new();
        for key in it: self.keys.iter()
            invariant
                forall|k: u64|
                    keys@.contains(k) <==> exists|i: int|
                        0 <= i < it.index() && *#[trigger] it.seq()[i] == k,
        {
            keys.insert(*key);
        }
        proof {
            lemma_walk_covers(&self.keys);
        }
        CellSet { keys }
    }
}

impl PartialEq for CellSet {
    /// Whether the two sets have the same cells.
    fn eq(&self, other: &Self) -> (equal: bool) {
        proof {
            lemma_cells_determine_keys(self.keys@, other.keys@);
            lemma_walk_covers(&self.keys);
            lemma_walk_covers(&other.keys);
        }
        if self.keys.len() != other.keys.len() {
            return false;
        }
        for key in it: self.keys.iter()
            invariant
                forall|i: int| 0 <= i < it.index() ==> other.keys@.contains(*#[trigger] it.seq()[i]),
        {
            if !other.keys.contains(key) {
                proof {
                    lemma_cells_determine_keys(self.keys@, other.keys@);
                }
                return false;
            }
        }
        proof {
            vstd::set_lib::lemma_subset_equality(self.keys@, other.keys@);
        }
        true
    }
}

impl Eq for CellSet {}

impl vstd::std_specs::cmp::PartialEqSpecImpl for CellSet {
    open spec fn obeys_eq_spec() -> bool {
        true
    }

    open spec fn eq_spec(&self, other: &Self) -> bool {
        self@ == other@
    }
}

} // verus!
