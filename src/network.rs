//! The hiders' controller network: three integer weight matrices, held in
//! `ndarray` arrays, with random construction and per-weight mutation.
use vstd::prelude::*;
use crate::motion::Action;

verus! {

/// A weight matrix, held in an `ndarray` array. Verus refuses a declaration
/// of `ndarray::ArrayBase`, so the array sits behind this opaque struct and the
/// functions below.
#[verifier::external_body]
pub struct WeightMatrix {
    array: ndarray::Array2<i64>,
}

/// The entries of a weight matrix, row by row.
pub uninterp spec fn matrix_rows(m: WeightMatrix) -> Seq<Seq<i64>>;

/// The number of columns of a weight matrix.
pub uninterp spec fn matrix_cols(m: WeightMatrix) -> nat;

/// Relies on ndarray's `ArrayBase::zeros`: a `rows` by `cols` matrix of
/// zeros. It panics when the product of the nonzero axis lengths exceeds
/// `isize::MAX`, or when the allocation's size in bytes does; `requires`
/// leaves both out.
#[verifier::external_body]
fn zeros(rows: usize, cols: usize) -> (r: WeightMatrix)
    requires
        rows <= isize::MAX,
        cols <= isize::MAX,
        rows * cols * 8 <= isize::MAX,
    ensures
        matrix_rows(r) == Seq::new(rows as nat, |i: int| Seq::new(cols as nat, |j: int| 0i64)),
        matrix_cols(r) == cols,
{
    WeightMatrix { array: ndarray::Array2::zeros((rows, cols)) }
}

/// Relies on ndarray's `ArrayBase::nrows`: the length of the first axis.
#[verifier::external_body]
fn nrows(m: &WeightMatrix) -> (r: usize)
    ensures
        r == matrix_rows(*m).len(),
{
    m.array.nrows()
}

/// Relies on ndarray's `ArrayBase::ncols`: the length of the second axis.
#[verifier::external_body]
fn ncols(m: &WeightMatrix) -> (r: usize)
    ensures
        r == matrix_cols(*m),
{
    m.array.ncols()
}

/// Relies on ndarray's `Index` with `[i, j]`: the entry at row `i`, column
/// `j`, which exists for the indices `requires` admits.
#[verifier::external_body]
fn entry(m: &WeightMatrix, i: usize, j: usize) -> (r: i64)
    requires
        i < matrix_rows(*m).len(),
        j < matrix_cols(*m),
        matrix_rows(*m)[i as int].len() == matrix_cols(*m),
    ensures
        r == matrix_rows(*m)[i as int][j as int],
{
    m.array[[i, j]]
}

/// Relies on ndarray's `IndexMut` with `[i, j]`: overwrites the entry at row
/// `i`, column `j`, and nothing else.
#[verifier::external_body]
fn set_entry(m: &mut WeightMatrix, i: usize, j: usize, v: i64)
    requires
        i < matrix_rows(*old(m)).len(),
        j < matrix_cols(*old(m)),
        matrix_rows(*old(m))[i as int].len() == matrix_cols(*old(m)),
    ensures
        matrix_rows(*final(m)) == matrix_rows(*old(m)).update(
            i as int,
            matrix_rows(*old(m))[i as int].update(j as int, v),
        ),
        matrix_cols(*final(m)) == matrix_cols(*old(m)),
{
    m.array[[i, j]] = v;
}

/// Relies on ndarray's `Clone` for owned arrays: a copy with the same shape
/// and entries.
#[verifier::external_body]
fn copy_matrix(m: &WeightMatrix) -> (r: WeightMatrix)
    ensures
        matrix_rows(r) == matrix_rows(*m),
        matrix_cols(r) == matrix_cols(*m),
{
    WeightMatrix { array: m.array.clone() }
}

/// Relies on rand's `Rng::gen_range` on the thread-local generator: a value
/// drawn from `lo..hi`. It panics on an empty range, which `requires` leaves
/// out.
#[verifier::external_body]
fn random_in(lo: i64, hi: i64) -> (r: i64)
    requires
        lo < hi,
    ensures
        lo <= r < hi,
{
    rand::Rng::gen_range(&mut rand::thread_rng(), lo..hi)
}

/// Weights are fixed-point numbers: `WEIGHT_ONE` stands for `1.0`.
pub const WEIGHT_ONE: i64 = 1000;

/// Mutation rates are parts of `RATE_ONE`: `RATE_ONE` perturbs every weight.
pub const RATE_ONE: u32 = 1000;

/// Every row of `rows` has `cols` entries.
pub open spec fn well_shaped(rows: Seq<Seq<i64>>, cols: nat) -> bool {
    forall|i: int| 0 <= i < rows.len() ==> (#[trigger] rows[i]).len() == cols
}

/// `s` has the shape `rows` by `cols`.
pub open spec fn shaped_like<T>(s: Seq<Seq<T>>, rows: nat, cols: nat) -> bool {
    s.len() == rows && forall|i: int| 0 <= i < rows ==> (#[trigger] s[i]).len() == cols
}

/// `w + d`, held within the range of `i64`.
pub open spec fn sat_add(w: i64, d: i64) -> i64 {
    if w + d > i64::MAX {
        i64::MAX
    } else if w + d < i64::MIN {
        i64::MIN
    } else {
        (w + d) as i64
    }
}

/// One weight after mutation: perturbed by `delta` when `roll` falls below
/// `rate`, unchanged otherwise.
pub open spec fn mutated_weight(w: i64, rate: u32, roll: u32, delta: i64) -> i64 {
    if roll < rate {
        sat_add(w, delta)
    } else {
        w
    }
}

/// A matrix after mutation, weight by weight, with the draws `rolls` and
/// `deltas` laid out as the matrix is.
pub open spec fn mutated_rows(
    rows: Seq<Seq<i64>>,
    rate: u32,
    rolls: Seq<Seq<u32>>,
    deltas: Seq<Seq<i64>>,
) -> Seq<Seq<i64>> {
    Seq::new(
        rows.len(),
        |i: int|
            Seq::new(
                rows[i].len(),
                |j: int| mutated_weight(rows[i][j], rate, rolls[i][j], deltas[i][j]),
            ),
    )
}

/// The rows before `i`, and the first `j` entries of row `i`, mutated; the
/// rest as they were.
spec fn mutated_prefix(
    rows: Seq<Seq<i64>>,
    rate: u32,
    rolls: Seq<Seq<u32>>,
    deltas: Seq<Seq<i64>>,
    i: int,
    j: int,
) -> Seq<Seq<i64>> {
    Seq::new(
        rows.len(),
        |a: int|
            Seq::new(
                rows[a].len(),
                |b: int|
                    if a < i || (a == i && b < j) {
                        mutated_weight(rows[a][b], rate, rolls[a][b], deltas[a][b])
                    } else {
                        rows[a][b]
                    },
            ),
    )
}

fn saturating_add(w: i64, d: i64) -> (r: i64)
    ensures
        r == sat_add(w, d),
{
    if d > 0 && w > i64::MAX - d {
        i64::MAX
    } else if d < 0 && w < i64::MIN - d {
        i64::MIN
    } else {
        w + d
    }
}

/// The random draws that mutate one matrix: a roll in `0..RATE_ONE` and a
/// perturbation in `-WEIGHT_ONE..WEIGHT_ONE` for each weight.
pub struct Perturbation {
    pub rolls: Vec<Vec<u32>>,
    pub deltas: Vec<Vec<i64>>,
}

impl Perturbation {
    /// The draws are laid out as a `rows` by `cols` matrix and lie in their
    /// ranges.
    pub open spec fn fits(&self, rows: nat, cols: nat) -> bool {
        &&& shaped_like(self.rolls.deep_view(), rows, cols)
        &&& shaped_like(self.deltas.deep_view(), rows, cols)
        &&& forall|i: int, j: int|
            0 <= i < rows && 0 <= j < cols ==> #[trigger] self.rolls.deep_view()[i][j] < RATE_ONE
        &&& forall|i: int, j: int|
            0 <= i < rows && 0 <= j < cols ==> -WEIGHT_ONE <= #[trigger] self.deltas.deep_view()[i][j]
                < WEIGHT_ONE
    }

    /// Draws a perturbation for a `rows` by `cols` matrix.
    pub fn random(rows: usize, cols: usize) -> (r: Perturbation)
        ensures
            r.fits(rows as nat, cols as nat),
    {
        let mut rolls: Vec<Vec<u32>> = Vec::new();
        let mut deltas: Vec<Vec<i64>> = Vec::new();
        let mut i: usize = 0;
        while i < rows
            invariant
                i <= rows,
                (Perturbation { rolls, deltas }).fits(i as nat, cols as nat),
            decreases rows - i,
        {
            let mut roll_row: Vec<u32> = Vec::new();
            let mut delta_row: Vec<i64> = Vec::new();
            let mut j: usize = 0;
            while j < cols
                invariant
                    j <= cols,
                    roll_row@.len() == j,
                    delta_row@.len() == j,
                    forall|b: int| 0 <= b < j ==> #[trigger] roll_row@[b] < RATE_ONE,
                    forall|b: int| 0 <= b < j ==> -WEIGHT_ONE <= #[trigger] delta_row@[b] < WEIGHT_ONE,
                decreases cols - j,
            {
                roll_row.push(random_in(0, RATE_ONE as i64) as u32);
                delta_row.push(random_in(-WEIGHT_ONE, WEIGHT_ONE));
                j += 1;
            }
            let ghost old_rolls = rolls.deep_view();
            let ghost old_deltas = deltas.deep_view();
            rolls.push(roll_row);
            deltas.push(delta_row);
            proof {
                assert(rolls.deep_view() =~~= old_rolls.push(roll_row@));
                assert(deltas.deep_view() =~~= old_deltas.push(delta_row@));
            }
            i += 1;
        }
        Perturbation { rolls, deltas }
    }
}

/// Mutates one matrix with the given draws.
fn perturb(m: &mut WeightMatrix, rate: u32, p: &Perturbation)
    requires
        well_shaped(matrix_rows(*old(m)), matrix_cols(*old(m))),
        p.fits(matrix_rows(*old(m)).len(), matrix_cols(*old(m))),
    ensures
        matrix_rows(*final(m)) == mutated_rows(
            matrix_rows(*old(m)),
            rate,
            p.rolls.deep_view(),
            p.deltas.deep_view(),
        ),
        matrix_cols(*final(m)) == matrix_cols(*old(m)),
{
    let ghost start = matrix_rows(*m);
    let ghost rolls = p.rolls.deep_view();
    let ghost deltas = p.deltas.deep_view();
    let rows = nrows(m);
    let cols = ncols(m);
    let mut i: usize = 0;
    proof {
        assert(start =~~= mutated_prefix(start, rate, rolls, deltas, 0, 0));
    }
    while i < rows
        invariant
            i <= rows,
            rows == start.len(),
            cols == matrix_cols(*m),
            well_shaped(start, cols as nat),
            p.fits(rows as nat, cols as nat),
            rolls == p.rolls.deep_view(),
            deltas == p.deltas.deep_view(),
            matrix_rows(*m) == mutated_prefix(start, rate, rolls, deltas, i as int, 0),
        decreases rows - i,
    {
        let mut j: usize = 0;
        while j < cols
            invariant
                i < rows,
                j <= cols,
                rows == start.len(),
                cols == matrix_cols(*m),
                well_shaped(start, cols as nat),
                p.fits(rows as nat, cols as nat),
                rolls == p.rolls.deep_view(),
                deltas == p.deltas.deep_view(),
                matrix_rows(*m) == mutated_prefix(start, rate, rolls, deltas, i as int, j as int),
            decreases cols - j,
        {
            proof {
                assert(rolls[i as int] == p.rolls@[i as int]@);
                assert(deltas[i as int] == p.deltas@[i as int]@);
            }
            let roll = p.rolls[i][j];
            if roll < rate {
                let w = entry(m, i, j);
                let v = saturating_add(w, p.deltas[i][j]);
                set_entry(m, i, j, v);
            }
            proof {
                assert(matrix_rows(*m) =~~= mutated_prefix(
                    start,
                    rate,
                    rolls,
                    deltas,
                    i as int,
                    j + 1,
                ));
            }
            j += 1;
        }
        proof {
            assert(mutated_prefix(start, rate, rolls, deltas, i as int, cols as int)
                =~~= mutated_prefix(start, rate, rolls, deltas, i + 1, 0));
        }
        i += 1;
    }
    proof {
        assert(mutated_prefix(start, rate, rolls, deltas, rows as int, 0) =~~= mutated_rows(
            start,
            rate,
            rolls,
            deltas,
        ));
    }
}

/// Every entry of `rows` lies in `-WEIGHT_ONE..WEIGHT_ONE`.
pub open spec fn initial_weights(rows: Seq<Seq<i64>>) -> bool {
    forall|i: int, j: int|
        0 <= i < rows.len() && 0 <= j < rows[i].len() ==> -WEIGHT_ONE <= #[trigger] rows[i][j]
            < WEIGHT_ONE
}

/// A `rows` by `cols` matrix of weights drawn from `-WEIGHT_ONE..WEIGHT_ONE`.
fn random_matrix(rows: usize, cols: usize) -> (r: WeightMatrix)
    requires
        rows <= isize::MAX,
        cols <= isize::MAX,
        rows * cols * 8 <= isize::MAX,
    ensures
        matrix_rows(r).len() == rows,
        matrix_cols(r) == cols,
        well_shaped(matrix_rows(r), cols as nat),
        initial_weights(matrix_rows(r)),
{
    let mut m = zeros(rows, cols);
    let mut i: usize = 0;
    while i < rows
        invariant
            i <= rows,
            matrix_rows(m).len() == rows,
            matrix_cols(m) == cols,
            well_shaped(matrix_rows(m), cols as nat),
            initial_weights(matrix_rows(m)),
        decreases rows - i,
    {
        let mut j: usize = 0;
        while j < cols
            invariant
                i < rows,
                j <= cols,
                matrix_rows(m).len() == rows,
                matrix_cols(m) == cols,
                well_shaped(matrix_rows(m), cols as nat),
                initial_weights(matrix_rows(m)),
            decreases cols - j,
        {
            let w = random_in(-WEIGHT_ONE, WEIGHT_ONE);
            set_entry(&mut m, i, j, w);
            j += 1;
        }
        i += 1;
    }
    m
}

/// The draws `rolls` and `deltas` are laid out as `rows` is and lie in
/// their ranges.
pub open spec fn draws_fit(rows: Seq<Seq<i64>>, rolls: Seq<Seq<u32>>, deltas: Seq<Seq<i64>>) -> bool {
    &&& rolls.len() == rows.len()
    &&& deltas.len() == rows.len()
    &&& forall|i: int|
        0 <= i < rows.len() ==> (#[trigger] rolls[i]).len() == rows[i].len() && deltas[i].len()
            == rows[i].len()
    &&& forall|i: int, j: int|
        0 <= i < rows.len() && 0 <= j < rows[i].len() ==> #[trigger] rolls[i][j] < RATE_ONE
    &&& forall|i: int, j: int|
        0 <= i < rows.len() && 0 <= j < rows[i].len() ==> -WEIGHT_ONE <= #[trigger] deltas[i][j]
            < WEIGHT_ONE
}

/// `after` is `before` mutated at `rate` by some draws that fit it.
pub open spec fn is_mutation_of(after: Seq<Seq<i64>>, before: Seq<Seq<i64>>, rate: u32) -> bool {
    exists|rolls: Seq<Seq<u32>>, deltas: Seq<Seq<i64>>|
        draws_fit(before, rolls, deltas) && after == mutated_rows(before, rate, rolls, deltas)
}

/// Mutation keeps the shape of a matrix.
pub proof fn lemma_mutation_keeps_shape(
    rows: Seq<Seq<i64>>,
    rate: u32,
    rolls: Seq<Seq<u32>>,
    deltas: Seq<Seq<i64>>,
)
    ensures
        mutated_rows(rows, rate, rolls, deltas).len() == rows.len(),
        forall|i: int|
            0 <= i < rows.len() ==> (#[trigger] mutated_rows(rows, rate, rolls, deltas)[i]).len()
                == rows[i].len(),
{
}

/// Mutation at rate zero changes no weight.
pub proof fn lemma_zero_rate_keeps_weights(
    rows: Seq<Seq<i64>>,
    rolls: Seq<Seq<u32>>,
    deltas: Seq<Seq<i64>>,
)
    ensures
        mutated_rows(rows, 0, rolls, deltas) == rows,
{
    assert(mutated_rows(rows, 0, rolls, deltas) =~~= rows);
}

/// Mutation at the full rate perturbs every weight by its draw.
pub proof fn lemma_full_rate_perturbs_all(
    rows: Seq<Seq<i64>>,
    rate: u32,
    rolls: Seq<Seq<u32>>,
    deltas: Seq<Seq<i64>>,
)
    requires
        rate >= RATE_ONE,
        draws_fit(rows, rolls, deltas),
    ensures
        forall|i: int, j: int|
            0 <= i < rows.len() && 0 <= j < rows[i].len() ==> #[trigger] mutated_rows(
                rows,
                rate,
                rolls,
                deltas,
            )[i][j] == sat_add(rows[i][j], deltas[i][j]),
{
    assert forall|i: int, j: int| 0 <= i < rows.len() && 0 <= j < rows[i].len() implies #[trigger]
        mutated_rows(rows, rate, rolls, deltas)[i][j] == sat_add(rows[i][j], deltas[i][j]) by {
        assert(rolls[i][j] < RATE_ONE);
    }
}

/// A feed-forward controller with three weight layers: input to hidden,
/// hidden to output, and output to the four actions.
pub struct NeuralNetwork {
    pub input_weights: WeightMatrix,
    pub hidden_weights: WeightMatrix,
    pub output_weights: WeightMatrix,
}

impl NeuralNetwork {
    /// The weights of the three layers, in order.
    pub open spec fn layers(&self) -> Seq<Seq<Seq<i64>>> {
        seq![
            matrix_rows(self.input_weights),
            matrix_rows(self.hidden_weights),
            matrix_rows(self.output_weights),
        ]
    }

    /// The column counts of the three layers, in order.
    pub open spec fn widths(&self) -> Seq<nat> {
        seq![
            matrix_cols(self.input_weights),
            matrix_cols(self.hidden_weights),
            matrix_cols(self.output_weights),
        ]
    }

    /// Every layer is a proper matrix.
    pub open spec fn wf(&self) -> bool {
        &&& well_shaped(matrix_rows(self.input_weights), matrix_cols(self.input_weights))
        &&& well_shaped(matrix_rows(self.hidden_weights), matrix_cols(self.hidden_weights))
        &&& well_shaped(matrix_rows(self.output_weights), matrix_cols(self.output_weights))
    }

    /// Both networks have layers of the same dimensions.
    pub open spec fn same_shape(&self, other: &NeuralNetwork) -> bool {
        &&& self.widths() == other.widths()
        &&& forall|k: int| 0 <= k < 3 ==> (#[trigger] self.layers()[k]).len() == other.layers()[k].len()
    }

    /// A network for `input_size` inputs with `hidden_size` and `output_size`
    /// units, its weights drawn from `-WEIGHT_ONE..WEIGHT_ONE`.
    pub fn new(input_size: usize, hidden_size: usize, output_size: usize) -> (r: NeuralNetwork)
        requires
            input_size <= isize::MAX,
            hidden_size <= isize::MAX,
            output_size <= isize::MAX,
            input_size * hidden_size * 8 <= isize::MAX,
            hidden_size * output_size * 8 <= isize::MAX,
            output_size * 4 * 8 <= isize::MAX,
        ensures
            r.wf(),
            r.layers()[0].len() == input_size && r.widths()[0] == hidden_size,
            r.layers()[1].len() == hidden_size && r.widths()[1] == output_size,
            r.layers()[2].len() == output_size && r.widths()[2] == 4,
            forall|k: int| 0 <= k < 3 ==> initial_weights(#[trigger] r.layers()[k]),
    {
        let r = NeuralNetwork {
            input_weights: random_matrix(input_size, hidden_size),
            hidden_weights: random_matrix(hidden_size, output_size),
            output_weights: random_matrix(output_size, 4),
        };
        proof {
            assert(r.layers()[0] == matrix_rows(r.input_weights));
            assert(r.layers()[1] == matrix_rows(r.hidden_weights));
            assert(r.layers()[2] == matrix_rows(r.output_weights));
        }
        r
    }

    /// Mutates every layer with the given draws: a weight whose roll falls
    /// below `rate` has its delta added, saturating; the others stay.
    pub fn mutate_with(
        &mut self,
        rate: u32,
        input: &Perturbation,
        hidden: &Perturbation,
        output: &Perturbation,
    )
        requires
            old(self).wf(),
            input.fits(old(self).layers()[0].len(), old(self).widths()[0]),
            hidden.fits(old(self).layers()[1].len(), old(self).widths()[1]),
            output.fits(old(self).layers()[2].len(), old(self).widths()[2]),
        ensures
            final(self).wf(),
            final(self).same_shape(old(self)),
            final(self).widths() == old(self).widths(),
            final(self).layers() == seq![
                mutated_rows(old(self).layers()[0], rate, input.rolls.deep_view(), input.deltas.deep_view()),
                mutated_rows(old(self).layers()[1], rate, hidden.rolls.deep_view(), hidden.deltas.deep_view()),
                mutated_rows(old(self).layers()[2], rate, output.rolls.deep_view(), output.deltas.deep_view()),
            ],
    {
        proof {
            assert(old(self).layers()[0] == matrix_rows(old(self).input_weights));
            assert(old(self).layers()[1] == matrix_rows(old(self).hidden_weights));
            assert(old(self).layers()[2] == matrix_rows(old(self).output_weights));
        }
        perturb(&mut self.input_weights, rate, input);
        perturb(&mut self.hidden_weights, rate, hidden);
        perturb(&mut self.output_weights, rate, output);
        proof {
            let (a, b, c) = (
                matrix_rows(self.input_weights),
                matrix_rows(self.hidden_weights),
                matrix_rows(self.output_weights),
            );
            lemma_mutation_keeps_shape(old(self).layers()[0], rate, input.rolls.deep_view(), input.deltas.deep_view());
            lemma_mutation_keeps_shape(old(self).layers()[1], rate, hidden.rolls.deep_view(), hidden.deltas.deep_view());
            lemma_mutation_keeps_shape(old(self).layers()[2], rate, output.rolls.deep_view(), output.deltas.deep_view());
            assert(self.layers() =~= seq![a, b, c]);
        }
    }

    /// Mutates every layer: for each weight a roll is drawn from
    /// `0..RATE_ONE`, and where it falls below `rate` a perturbation drawn
    /// from `-WEIGHT_ONE..WEIGHT_ONE` is added. The shape never changes, and at
    /// rate zero no weight does.
    pub fn mutate(&mut self, rate: u32)
        requires
            old(self).wf(),
        ensures
            final(self).wf(),
            final(self).same_shape(old(self)),
            final(self).widths() == old(self).widths(),
            forall|k: int|
                0 <= k < 3 ==> is_mutation_of(
                    #[trigger] final(self).layers()[k],
                    old(self).layers()[k],
                    rate,
                ),
            rate == 0 ==> final(self).layers() == old(self).layers(),
    {
        let input = Perturbation::random(nrows(&self.input_weights), ncols(&self.input_weights));
        let hidden = Perturbation::random(nrows(&self.hidden_weights), ncols(&self.hidden_weights));
        let output = Perturbation::random(nrows(&self.output_weights), ncols(&self.output_weights));
        let ghost before = *self;
        proof {
            lemma_fits_as_draws(before.layers()[0], before.widths()[0], &input);
            lemma_fits_as_draws(before.layers()[1], before.widths()[1], &hidden);
            lemma_fits_as_draws(before.layers()[2], before.widths()[2], &output);
        }
        self.mutate_with(rate, &input, &hidden, &output);
        proof {
            let after = self.layers();
            assert(is_mutation_of(after[0], before.layers()[0], rate));
            assert(is_mutation_of(after[1], before.layers()[1], rate));
            assert(is_mutation_of(after[2], before.layers()[2], rate));
            if rate == 0 {
                lemma_zero_rate_keeps_weights(before.layers()[0], input.rolls.deep_view(), input.deltas.deep_view());
                lemma_zero_rate_keeps_weights(before.layers()[1], hidden.rolls.deep_view(), hidden.deltas.deep_view());
                lemma_zero_rate_keeps_weights(before.layers()[2], output.rolls.deep_view(), output.deltas.deep_view());
                assert(after =~= before.layers());
            }
        }
    }

    /// The dimensions `(rows, columns)` of layer `layer`.
    pub fn layer_shape(&self, layer: usize) -> (r: (usize, usize))
        requires
            layer < 3,
        ensures
            r.0 == self.layers()[layer as int].len(),
            r.1 == self.widths()[layer as int],
    {
        if layer == 0 {
            (nrows(&self.input_weights), ncols(&self.input_weights))
        } else if layer == 1 {
            (nrows(&self.hidden_weights), ncols(&self.hidden_weights))
        } else {
            (nrows(&self.output_weights), ncols(&self.output_weights))
        }
    }

    /// The weight at row `i`, column `j` of layer `layer`.
    pub fn weight(&self, layer: usize, i: usize, j: usize) -> (r: i64)
        requires
            self.wf(),
            layer < 3,
            i < self.layers()[layer as int].len(),
            j < self.widths()[layer as int],
        ensures
            r == self.layers()[layer as int][i as int][j as int],
    {
        if layer == 0 {
            entry(&self.input_weights, i, j)
        } else if layer == 1 {
            entry(&self.hidden_weights, i, j)
        } else {
            entry(&self.output_weights, i, j)
        }
    }

    /// The action whose score is highest; of equal scores, the first.
    /// `scores` holds one score for each action, in the order of
    /// `Action::index`.
    pub fn get_direction(scores: &Vec<i64>) -> (r: Action)
        requires
            scores@.len() == 4,
        ensures
            forall|j: int| 0 <= j < 4 ==> #[trigger] scores@[j] <= scores@[r.index()],
            forall|j: int| 0 <= j < r.index() ==> #[trigger] scores@[j] < scores@[r.index()],
    {
        let mut best: usize = 0;
        let mut i: usize = 1;
        while i < 4
            invariant
                scores@.len() == 4,
                best < i <= 4,
                forall|j: int| 0 <= j < i ==> scores@[j] <= scores@[best as int],
                forall|j: int| 0 <= j < best ==> scores@[j] < scores@[best as int],
            decreases 4 - i,
        {
            if scores[i] > scores[best] {
                best = i;
            }
            i += 1;
        }
        let r = if best == 0 {
            Action::Right
        } else if best == 1 {
            Action::Left
        } else if best == 2 {
            Action::Up
        } else {
            Action::Down
        };
        r
    }
}

impl Clone for NeuralNetwork {
    /// A deep copy: changing it leaves this network as it is.
    fn clone(&self) -> (r: Self)
        ensures
            r.layers() == self.layers(),
            r.widths() == self.widths(),
    {
        let r = NeuralNetwork {
            input_weights: copy_matrix(&self.input_weights),
            hidden_weights: copy_matrix(&self.hidden_weights),
            output_weights: copy_matrix(&self.output_weights),
        };
        proof {
            assert(r.layers() =~= self.layers());
            assert(r.widths() =~= self.widths());
        }
        r
    }
}

/// Draws that fit a matrix's shape fit its entries.
proof fn lemma_fits_as_draws(rows: Seq<Seq<i64>>, cols: nat, p: &Perturbation)
    requires
        well_shaped(rows, cols),
        p.fits(rows.len(), cols),
    ensures
        draws_fit(rows, p.rolls.deep_view(), p.deltas.deep_view()),
{
    let rolls = p.rolls.deep_view();
    let deltas = p.deltas.deep_view();
    assert forall|i: int| 0 <= i < rows.len() implies (#[trigger] rolls[i]).len() == rows[i].len()
        && deltas[i].len() == rows[i].len() by {
        assert(rows[i].len() == cols);
    }
    assert forall|i: int, j: int| 0 <= i < rows.len() && 0 <= j < rows[i].len() implies #[trigger] rolls[i][j] < RATE_ONE by {
        assert(rows[i].len() == cols);
    }
    assert forall|i: int, j: int| 0 <= i < rows.len() && 0 <= j < rows[i].len() implies -WEIGHT_ONE <= #[trigger] deltas[i][j] < WEIGHT_ONE by {
        assert(rows[i].len() == cols);
    }
}

} // verus!
