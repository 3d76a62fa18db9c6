use vstd::prelude::*;

use rand::Rng;

use crate::fixed::SCALE;
use crate::settings::LIMIT;

verus! {

/// A colour as hue in degrees and saturation, lightness and alpha in percent.
#[derive(Clone, Copy, PartialEq, Eq, Structural, Debug)]
pub struct Color {
    pub hue: u16,
    pub saturation: u8,
    pub lightness: u8,
    pub alpha: u8,
}

/// Number of colours of the group palette.
pub const PALETTE_LEN: usize = 4;

pub open spec fn palette_hue(i: int) -> u16 {
    if i == 0 {
        349
    } else if i == 1 {
        223
    } else if i == 2 {
        135
    } else {
        53
    }
}

pub open spec fn palette_spec(group: int) -> Color {
    Color { hue: palette_hue(group % (PALETTE_LEN as int)), saturation: 100, lightness: 60, alpha: 100 }
}

/// The palette colour of a group.
pub fn palette(group: usize) -> (r: Color)
    ensures
        r == palette_spec(group as int),
{
    let i = group % PALETTE_LEN;
    let hue: u16 = if i == 0 {
        349
    } else if i == 1 {
        223
    } else if i == 2 {
        135
    } else {
        53
    };
    Color { hue, saturation: 100, lightness: 60, alpha: 100 }
}

/// Relies on rand's `thread_rng().gen_range(lo..hi)`: a value drawn from the
/// half-open range, which is not empty.
#[verifier::external_body]
pub(crate) fn random_between(lo: i64, hi: i64) -> (r: i64)
    requires
        lo < hi,
    ensures
        lo <= r < hi,
{
    rand::thread_rng().gen_range(lo..hi)
}

/// Interaction parameters of every group, in fixed-point steps.
pub struct Rules {
    pub amount: Vec<usize>,
    /// `attractions[i][j]`: how strongly group `i` is drawn toward group `j`.
    pub attractions: Vec<Vec<i64>>,
    pub colors: Vec<Color>,
    pub rep_range: Vec<i64>,
    pub rep_force: Vec<i64>,
}

/// The parameters of one group.
pub struct Rule {
    pub amount: usize,
    pub attractions: Vec<i64>,
    pub color: Color,
    pub repulsion_range: i64,
    pub repulsion_force: i64,
}

impl Rules {
    /// Number of groups.
    pub open spec fn groups(&self) -> nat {
        self.amount@.len()
    }

    pub open spec fn attraction(&self, i: int, j: int) -> i64 {
        self.attractions@[i]@[j]
    }

    pub open spec fn wf(&self) -> bool {
        &&& self.attractions@.len() == self.groups()
        &&& self.colors@.len() == self.groups()
        &&& self.rep_range@.len() == self.groups()
        &&& self.rep_force@.len() == self.groups()
        &&& forall|i: int| 0 <= i < self.groups() ==> #[trigger] self.attractions@[i]@.len() == self.groups()
        &&& forall|i: int, j: int|
            0 <= i < self.groups() && 0 <= j < self.groups() ==> -LIMIT <= #[trigger] self.attraction(i, j) <= LIMIT
        &&& forall|i: int| 0 <= i < self.groups() ==> -LIMIT <= #[trigger] self.rep_force@[i] <= LIMIT
    }

    pub fn new(
        amount: Vec<usize>,
        attractions: Vec<Vec<i64>>,
        colors: Vec<Color>,
        rep_range: Vec<i64>,
        rep_force: Vec<i64>,
    ) -> (r: Rules)
        requires
            attractions@.len() == amount@.len(),
            colors@.len() == amount@.len(),
            rep_range@.len() == amount@.len(),
            rep_force@.len() == amount@.len(),
            forall|i: int| 0 <= i < amount@.len() ==> #[trigger] attractions@[i]@.len() == amount@.len(),
            forall|i: int, j: int|
                0 <= i < amount@.len() && 0 <= j < amount@.len() ==> -LIMIT <= #[trigger] attractions@[i]@[j] <= LIMIT,
            forall|i: int| 0 <= i < amount@.len() ==> -LIMIT <= #[trigger] rep_force@[i] <= LIMIT,
        ensures
            r.wf(),
            r.amount == amount,
            r.attractions == attractions,
            r.colors == colors,
            r.rep_range == rep_range,
            r.rep_force == rep_force,
    {
        Rules { amount, attractions, colors, rep_range, rep_force }
    }

    /// The parameters of group `i`.
    pub fn rule(&self, i: usize) -> (r: Rule)
        requires
            self.wf(),
            i < self.groups(),
        ensures
            r.amount == self.amount@[i as int],
            r.attractions@ == self.attractions@[i as int]@,
            r.color == self.colors@[i as int],
            r.repulsion_range == self.rep_range@[i as int],
            r.repulsion_force == self.rep_force@[i as int],
    {
        let row = &self.attractions[i];
        let mut attractions: Vec<i64> = Vec::new();
        let mut j: usize = 0;
        while j < row.len()
            invariant
                j <= row@.len(),
                attractions@ == row@.take(j as int),
            decreases row@.len() - j,
        {
            attractions.push(row[j]);
            j += 1;
            assert(attractions@ =~= row@.take(j as int));
        }
        assert(row@.take(row@.len() as int) =~= row@);
        Rule {
            amount: self.amount[i],
            attractions,
            color: self.colors[i],
            repulsion_range: self.rep_range[i],
            repulsion_force: self.rep_force[i],
        }
    }

    /// Fresh rules for `groups` groups: 1000 particles each, attractions drawn
    /// from `[-1, 1)`, repulsion range 15 and repulsion force -1.
    pub fn random(groups: usize) -> (r: Rules)
        ensures
            r.wf(),
            r.groups() == groups,
            forall|i: int| 0 <= i < groups ==> #[trigger] r.amount@[i] == 1000,
            forall|i: int| 0 <= i < groups ==> #[trigger] r.rep_range@[i] == 15 * SCALE,
            forall|i: int| 0 <= i < groups ==> #[trigger] r.rep_force@[i] == -SCALE,
            forall|i: int| 0 <= i < groups ==> #[trigger] r.colors@[i] == palette_spec(i),
            forall|i: int, j: int|
                0 <= i < groups && 0 <= j < groups ==> -SCALE <= #[trigger] r.attraction(i, j) < SCALE,
    {
        let mut amount: Vec<usize> = Vec::new();
        let mut attractions: Vec<Vec<i64>> = Vec::new();
        let mut colors: Vec<Color> = Vec::new();
        let mut rep_range: Vec<i64> = Vec::new();
        let mut rep_force: Vec<i64> = Vec::new();
        let mut i: usize = 0;
        while i < groups
            invariant
                i <= groups,
                amount@.len() == i,
                attractions@.len() == i,
                colors@.len() == i,
                rep_range@.len() == i,
                rep_force@.len() == i,
                forall|k: int| 0 <= k < i ==> #[trigger] amount@[k] == 1000,
                forall|k: int| 0 <= k < i ==> #[trigger] rep_range@[k] == 15 * SCALE,
                forall|k: int| 0 <= k < i ==> #[trigger] rep_force@[k] == -SCALE,
                forall|k: int| 0 <= k < i ==> #[trigger] colors@[k] == palette_spec(k),
                forall|k: int| 0 <= k < i ==> #[trigger] attractions@[k]@.len() == groups,
                forall|k: int, j: int|
                    0 <= k < i && 0 <= j < groups ==> -SCALE <= #[trigger] attractions@[k]@[j] < SCALE,
            decreases groups - i,
        {
            let mut row: Vec<i64> = Vec::new();
            let mut j: usize = 0;
            while j < groups
                invariant
                    j <= groups,
                    row@.len() == j,
                    forall|l: int| 0 <= l < j ==> -SCALE <= #[trigger] row@[l] < SCALE,
                decreases groups - j,
            {
                row.push(random_between(-SCALE, SCALE));
                j += 1;
            }
            amount.push(1000);
            attractions.push(row);
            colors.push(palette(i));
            rep_range.push(15 * SCALE);
            rep_force.push(-SCALE);
            i += 1;
        }
        Rules { amount, attractions, colors, rep_range, rep_force }
    }
}

} // verus!
