use vstd::prelude::*;

verus! {

/// The shape of a dense matrix.
#[derive(Debug, Clone, Copy, PartialEq, Eq, Structural)]
pub struct Shape {
    pub rows: usize,
    pub cols: usize,
}

/// The errors of the training core: an operation on matrices whose shapes
/// do not fit together, or a network configured with an empty layer or a
/// learning rate that is not positive.
#[derive(Debug, Clone, Copy, PartialEq, Eq, Structural)]
pub enum NetworkError {
    ShapeMismatch,
    InvalidConfiguration,
}

/// The shape of a matrix product, defined when the inner dimensions agree.
pub open spec fn spec_dot_shape(a: Shape, b: Shape) -> Option<Shape> {
    if a.cols == b.rows {
        Some(Shape { rows: a.rows, cols: b.cols })
    } else {
        None
    }
}

/// The shape of a transposed matrix.
pub open spec fn spec_transpose_shape(a: Shape) -> Shape {
    Shape { rows: a.cols, cols: a.rows }
}

/// The shape of the n-by-n identity matrix.
pub open spec fn spec_identity_shape(n: usize) -> Shape {
    Shape { rows: n, cols: n }
}

/// The shape of a matrix product: the outer dimensions of the operands,
/// or ShapeMismatch when the inner dimensions disagree.
pub fn dot_shape(a: Shape, b: Shape) -> (r: Result<Shape, NetworkError>)
    ensures
        a.cols == b.rows <==> r is Ok,
        match r {
            Ok(s) => spec_dot_shape(a, b) == Some(s),
            Err(e) => spec_dot_shape(a, b) is None && e == NetworkError::ShapeMismatch,
        },
{
    if a.cols == b.rows {
        Ok(Shape { rows: a.rows, cols: b.cols })
    } else {
        Err(NetworkError::ShapeMismatch)
    }
}

/// The shape of a transposed matrix; transposing never fails.
pub fn transpose_shape(a: Shape) -> (r: Shape)
    ensures
        r == spec_transpose_shape(a),
{
    Shape { rows: a.cols, cols: a.rows }
}

/// The shape of an elementwise combination (multiply, add, or in-place
/// add): the operands must have identical shapes.
pub fn elementwise_shape(a: Shape, b: Shape) -> (r: Result<Shape, NetworkError>)
    ensures
        a == b <==> r is Ok,
        match r {
            Ok(s) => s == a,
            Err(e) => e == NetworkError::ShapeMismatch,
        },
{
    if a.rows == b.rows && a.cols == b.cols {
        Ok(a)
    } else {
        Err(NetworkError::ShapeMismatch)
    }
}

/// Law: for any shapes that admit the product a times b, transposing the
/// product and multiplying by the identity on a.rows round-trips to the
/// shape (b.cols, a.rows).
pub proof fn lemma_dot_transpose_identity(a: Shape, b: Shape)
    requires
        a.cols == b.rows,
    ensures
        spec_dot_shape(a, b) == Some(Shape { rows: a.rows, cols: b.cols }),
        spec_dot_shape(
            spec_transpose_shape(Shape { rows: a.rows, cols: b.cols }),
            spec_identity_shape(a.rows),
        ) == Some(Shape { rows: b.cols, cols: a.rows }),
{
}

/// Checks a network configuration: every layer must have at least one
/// unit and the learning rate must have been found positive.
pub fn validate_config(
    input_size: usize,
    hidden1_size: usize,
    hidden2_size: usize,
    output_size: usize,
    learning_rate_positive: bool,
) -> (r: Result<(), NetworkError>)
    ensures
        r is Ok <==> input_size > 0 && hidden1_size > 0 && hidden2_size > 0 && output_size > 0
            && learning_rate_positive,
        r is Err ==> r->Err_0 == NetworkError::InvalidConfiguration,
{
    if input_size > 0 && hidden1_size > 0 && hidden2_size > 0 && output_size > 0
        && learning_rate_positive {
        Ok(())
    } else {
        Err(NetworkError::InvalidConfiguration)
    }
}

/// The index of the largest entry, ties going to the lowest index. The
/// entries are order-encoded keys: any order-preserving encoding of the
/// prediction scores selects the same index.
pub fn argmax(v: &Vec<u64>) -> (r: usize)
    requires
        v@.len() > 0,
    ensures
        r < v@.len(),
        forall|k: int| 0 <= k < v@.len() ==> v@[k] <= v@[r as int],
        forall|k: int| 0 <= k < r ==> v@[k] < v@[r as int],
{
    let mut best: usize = 0;
    let mut k: usize = 1;
    while k < v.len()
        invariant
            v@.len() > 0,
            best < k,
            k <= v@.len(),
            forall|j: int| 0 <= j < k ==> v@[j] <= v@[best as int],
            forall|j: int| 0 <= j < best ==> v@[j] < v@[best as int],
        decreases v@.len() - k,
    {
        if v[k] > v[best] {
            best = k;
        }
        k = k + 1;
    }
    best
}

/// Law: the argmax contract pins a single index. Any two indices that
/// are both maximal and both strictly above every earlier entry are equal,
/// so the tie-break to the lowest index is deterministic.
pub proof fn lemma_argmax_unique(s: Seq<u64>, r1: int, r2: int)
    requires
        0 <= r1 < s.len(),
        0 <= r2 < s.len(),
        forall|k: int| 0 <= k < s.len() ==> s[k] <= s[r1],
        forall|k: int| 0 <= k < r1 ==> s[k] < s[r1],
        forall|k: int| 0 <= k < s.len() ==> s[k] <= s[r2],
        forall|k: int| 0 <= k < r2 ==> s[k] < s[r2],
    ensures
        r1 == r2,
{
    if r1 < r2 {
        assert(s[r1] < s[r2]);
        assert(s[r2] <= s[r1]);
    }
    if r2 < r1 {
        assert(s[r2] < s[r1]);
        assert(s[r1] <= s[r2]);
    }
}

/// Law: on a row with one strict maximum — an encoded one-hot target —
/// the argmax contract can only pick that entry, so the class read back
/// from a one-hot row is the label it was built from.
pub proof fn lemma_argmax_of_one_hot(s: Seq<u64>, label: int, r: int)
    requires
        0 <= label < s.len(),
        forall|k: int| 0 <= k < s.len() && k != label ==> s[k] < s[label],
        0 <= r < s.len(),
        forall|k: int| 0 <= k < s.len() ==> s[k] <= s[r],
        forall|k: int| 0 <= k < r ==> s[k] < s[r],
    ensures
        r == label,
{
    if r != label {
        assert(s[r] < s[label]);
        assert(s[label] <= s[r]);
    }
}

/// A one-hot row: entry `label` is 1 and every other entry is 0.
pub fn one_hot(label: usize, width: usize) -> (r: Result<Vec<u8>, NetworkError>)
    ensures
        r is Ok <==> label < width,
        match r {
            Ok(row) => {
                &&& row@.len() == width
                &&& row@[label as int] == 1
                &&& forall|k: int| 0 <= k < width && k != label ==> row@[k] == 0
            },
            Err(e) => e == NetworkError::ShapeMismatch,
        },
{
    if label >= width {
        return Err(NetworkError::ShapeMismatch);
    }
    let mut row: Vec<u8> = Vec::new();
    let mut k: usize = 0;
    while k < width
        invariant
            label < width,
            k <= width,
            row@.len() == k,
            forall|j: int| 0 <= j < k && j != label ==> row@[j] == 0,
            label < k ==> row@[label as int] == 1,
        decreases width - k,
    {
        if k == label {
            row.push(1);
        } else {
            row.push(0);
        }
        k = k + 1;
    }
    Ok(row)
}

/// The number of positions where the two class sequences agree.
pub open spec fn spec_match_count(a: Seq<usize>, b: Seq<usize>) -> nat
    decreases a.len(),
    when a.len() == b.len()
{
    if a.len() == 0 {
        0
    } else {
        spec_match_count(a.drop_last(), b.drop_last()) + if a.last() == b.last() {
            1nat
        } else {
            0nat
        }
    }
}

/// Counts the samples whose predicted class equals the labeled class:
/// the numerator of an epoch's accuracy.
pub fn count_matches(predicted: &Vec<usize>, actual: &Vec<usize>) -> (n: usize)
    requires
        predicted@.len() == actual@.len(),
    ensures
        n == spec_match_count(predicted@, actual@),
        n <= predicted@.len(),
{
    let mut n: usize = 0;
    let mut k: usize = 0;
    while k < predicted.len()
        invariant
            predicted@.len() == actual@.len(),
            k <= predicted@.len(),
            n == spec_match_count(predicted@.take(k as int), actual@.take(k as int)),
            n <= k,
        decreases predicted@.len() - k,
    {
        proof {
            assert(predicted@.take(k + 1).drop_last() =~= predicted@.take(k as int));
            assert(actual@.take(k + 1).drop_last() =~= actual@.take(k as int));
        }
        if predicted[k] == actual[k] {
            n = n + 1;
        }
        k = k + 1;
    }
    proof {
        assert(predicted@.take(predicted@.len() as int) =~= predicted@);
        assert(actual@.take(actual@.len() as int) =~= actual@);
    }
    n
}

} // verus!
