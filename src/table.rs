use vstd::prelude::*;

verus! {

/// The contents of a table of rows, each row as a sequence.
pub open spec fn rows_view(v: Seq<Vec<i64>>) -> Seq<Seq<i64>> {
    v.map_values(|r: Vec<i64>| r@)
}

/// Every row has exactly `width` entries.
pub open spec fn rectangular(rows: Seq<Seq<i64>>, width: int) -> bool {
    forall|i: int| 0 <= i < rows.len() ==> (#[trigger] rows[i]).len() == width
}

/// The entries of `rows` at position `t`, one per row.
pub open spec fn column(rows: Seq<Seq<i64>>, t: int) -> Seq<i64> {
    Seq::new(rows.len(), |i: int| rows[i][t])
}

/// One simulation run: one row of ages per asset, one entry per step, and
/// optionally one cost per asset.
pub struct RunTable {
    pub run_id: i64,
    pub n_steps: usize,
    pub rows: Vec<Vec<i64>>,
    pub costs: Option<Vec<i64>>,
}

impl RunTable {
    pub open spec fn wf(&self) -> bool {
        &&& rectangular(rows_view(self.rows@), self.n_steps as int)
        &&& match self.costs {
            Some(c) => c@.len() == self.rows@.len(),
            None => true,
        }
    }

    pub open spec fn ages(&self) -> Seq<Seq<i64>> {
        rows_view(self.rows@)
    }

    /// The cost of each asset; zero for every asset when no cost is attached.
    pub open spec fn cost_seq(&self) -> Seq<i64> {
        match self.costs {
            Some(c) => c@,
            None => Seq::new(self.rows@.len(), |i: int| 0i64),
        }
    }
}

/// Turns rows into columns: entry `j` of column `i` is entry `i` of row `j`.
/// The first row gives the width; every row must be at least as long.
pub fn transpose(v: &Vec<Vec<i64>>) -> (r: Vec<Vec<i64>>)
    requires
        v@.len() >= 1,
        forall|j: int| 0 <= j < v@.len() ==> (#[trigger] v@[j])@.len() >= v@[0]@.len(),
    ensures
        r@.len() == v@[0]@.len(),
        forall|i: int| 0 <= i < r@.len() ==> (#[trigger] r@[i])@.len() == v@.len(),
        forall|i: int, j: int|
            0 <= i < r@.len() && 0 <= j < v@.len() ==> #[trigger] r@[i]@[j] == v@[j]@[i],
{
    let wid = v[0].len();
    let mut out: Vec<Vec<i64>> = Vec::with_capacity(wid);
    let mut i: usize = 0;
    while i < wid
        invariant
            wid == v@[0]@.len(),
            v@.len() >= 1,
            forall|j: int| 0 <= j < v@.len() ==> (#[trigger] v@[j])@.len() >= wid,
            i <= wid,
            out@.len() == i,
            forall|a: int| 0 <= a < i ==> (#[trigger] out@[a])@.len() == v@.len(),
            forall|a: int, j: int|
                0 <= a < i && 0 <= j < v@.len() ==> #[trigger] out@[a]@[j] == v@[j]@[a],
        decreases wid - i,
    {
        let mut col: Vec<i64> = Vec::with_capacity(v.len());
        let mut j: usize = 0;
        while j < v.len()
            invariant
                i < wid,
                forall|b: int| 0 <= b < v@.len() ==> (#[trigger] v@[b])@.len() >= wid,
                j <= v@.len(),
                col@.len() == j,
                forall|b: int| 0 <= b < j ==> #[trigger] col@[b] == v@[b]@[i as int],
            decreases v@.len() - j,
        {
            col.push(v[j][i]);
            j = j + 1;
        }
        out.push(col);
        i = i + 1;
    }
    out
}

} // verus!
