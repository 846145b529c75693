use vstd::prelude::*;

verus! {

/// One cell of a data frame column. The third variant carries the bit
/// pattern of a floating-point cell; the frame never interprets it, it
/// only stores and rearranges it, so callers decode it at the edge.
#[derive(Debug, Clone)]
pub enum ColumnVal {
    One(String),
    Two(bool),
    Three(u64),
    Four(i64),
}

/// A table of named columns; labels[i] names columns[i]. A label that
/// appears twice denotes its latest column, as a keyed map would.
#[derive(Debug)]
pub struct DataFrame {
    pub labels: Vec<String>,
    pub columns: Vec<Vec<ColumnVal>>,
}

/// The number of rows: the height of the first column.
pub open spec fn spec_nrows(df: &DataFrame) -> nat {
    if df.columns@.len() == 0 {
        0
    } else {
        df.columns@[0]@.len()
    }
}

/// Well-formed frame: one column per label, all of the same height.
pub open spec fn frame_wf(df: &DataFrame) -> bool {
    &&& df.labels@.len() == df.columns@.len()
    &&& forall|i: int|
        0 <= i < df.columns@.len() ==> (#[trigger] df.columns@[i])@.len() == spec_nrows(df)
}

/// The latest position of a label, or -1 when the label is absent.
pub open spec fn spec_find(labels: Seq<String>, name: Seq<char>) -> int
    decreases labels.len(),
{
    if labels.len() == 0 {
        -1
    } else if labels.last()@ == name {
        labels.len() - 1
    } else {
        spec_find(labels.drop_last(), name)
    }
}

/// Whether the frame has a column under this label.
pub open spec fn has_label(df: &DataFrame, name: Seq<char>) -> bool {
    0 <= spec_find(df.labels@, name) < df.columns@.len()
}

/// The column a label denotes.
pub open spec fn col_of(df: &DataFrame, name: Seq<char>) -> Seq<ColumnVal> {
    df.columns@[spec_find(df.labels@, name)]@
}

proof fn lemma_spec_find_range(labels: Seq<String>, name: Seq<char>)
    ensures
        -1 <= spec_find(labels, name) < labels.len(),
    decreases labels.len(),
{
    if labels.len() > 0 && labels.last()@ != name {
        lemma_spec_find_range(labels.drop_last(), name);
    }
}

/// The subsequence of s kept by the true slots of the mask.
pub open spec fn mask_filter(s: Seq<ColumnVal>, m: Seq<bool>) -> Seq<ColumnVal>
    decreases s.len(),
    when s.len() == m.len()
{
    if s.len() == 0 {
        Seq::empty()
    } else if m.last() {
        mask_filter(s.drop_last(), m.drop_last()).push(s.last())
    } else {
        mask_filter(s.drop_last(), m.drop_last())
    }
}

/// The differences of the integer-valued rows of two columns: the rows
/// where both cells hold the fourth (integer) variant, first minus second.
pub open spec fn spec_sub_columns(a: Seq<ColumnVal>, b: Seq<ColumnVal>) -> Seq<int>
    decreases a.len(),
    when a.len() == b.len()
{
    if a.len() == 0 {
        Seq::empty()
    } else {
        let rest = spec_sub_columns(a.drop_last(), b.drop_last());
        match (a.last(), b.last()) {
            (ColumnVal::Four(x), ColumnVal::Four(y)) => rest.push(x - y),
            _ => rest,
        }
    }
}

impl DataFrame {
    /// An empty frame: no labels, no columns.
    pub fn new() -> (df: DataFrame)
        ensures
            df.labels@.len() == 0,
            df.columns@.len() == 0,
            frame_wf(&df),
    {
        DataFrame { labels: Vec::new(), columns: Vec::new() }
    }

    /// The position of the column a label denotes, if any.
    pub fn find_column_index(&self, label: &str) -> (r: Option<usize>)
        ensures
            match r {
                Some(i) => spec_find(self.labels@, label@) == i && i < self.labels@.len(),
                None => spec_find(self.labels@, label@) == -1,
            },
    {
        let owned = label.to_owned();
        let mut found: Option<usize> = None;
        let mut k: usize = 0;
        while k < self.labels.len()
            invariant
                owned@ == label@,
                k <= self.labels@.len(),
                match found {
                    Some(i) => i < k && spec_find(self.labels@.take(k as int), label@) == i,
                    None => spec_find(self.labels@.take(k as int), label@) == -1,
                },
            decreases self.labels@.len() - k,
        {
            proof {
                assert(self.labels@.take(k + 1).drop_last() =~= self.labels@.take(k as int));
                assert(self.labels@.take(k + 1).last() == self.labels@[k as int]);
            }
            if self.labels[k] == owned {
                found = Some(k);
            }
            k = k + 1;
        }
        proof {
            assert(self.labels@.take(self.labels@.len() as int) =~= self.labels@);
        }
        found
    }

    /// A copy of this frame with one more column appended under the given
    /// label; the receiving frame is untouched.
    pub fn add_column(&self, label: String, data: Vec<ColumnVal>) -> (df: DataFrame)
        ensures
            df.labels@ == self.labels@.push(label),
            df.columns@.len() == self.columns@.len() + 1,
            forall|i: int|
                0 <= i < self.columns@.len() ==> #[trigger] df.columns@[i]@ == self.columns@[i]@,
            df.columns@.last()@ == data@,
    {
        let mut labels = clone_string_vec(&self.labels);
        let mut columns = clone_columns(&self.columns);
        labels.push(label);
        columns.push(data);
        DataFrame { labels, columns }
    }

    /// A frame with this frame's labels in order, where each label's column
    /// is this frame's column followed by the other frame's column for the
    /// same label.
    pub fn merge_frame(&self, other: &DataFrame) -> (df: DataFrame)
        requires
            forall|i: int|
                0 <= i < self.labels@.len() ==> has_label(self, (#[trigger] self.labels@[i])@)
                    && has_label(other, self.labels@[i]@),
        ensures
            df.labels@ == self.labels@,
            df.columns@.len() == self.labels@.len(),
            forall|i: int|
                0 <= i < self.labels@.len() ==> #[trigger] df.columns@[i]@ == col_of(
                    self,
                    self.labels@[i]@,
                ) + col_of(other, self.labels@[i]@),
    {
        let labels = clone_string_vec(&self.labels);
        let mut columns: Vec<Vec<ColumnVal>> = Vec::new();
        let mut k: usize = 0;
        while k < labels.len()
            invariant
                labels@ == self.labels@,
                forall|i: int|
                    0 <= i < self.labels@.len() ==> has_label(self, (#[trigger] self.labels@[i])@)
                        && has_label(other, self.labels@[i]@),
                k <= self.labels@.len(),
                columns@.len() == k,
                forall|i: int|
                    0 <= i < k ==> #[trigger] columns@[i]@ == col_of(self, self.labels@[i]@)
                        + col_of(other, self.labels@[i]@),
            decreases labels@.len() - k,
        {
            let si = self.find_column_index(labels[k].as_str()).unwrap();
            let oi = other.find_column_index(labels[k].as_str()).unwrap();
            let mut combined = clone_column(&self.columns[si]);
            let mut extra = clone_column(&other.columns[oi]);
            combined.append(&mut extra);
            columns.push(combined);
            k = k + 1;
        }
        DataFrame { labels, columns }
    }

    /// A frame holding the requested labels in the requested order, each
    /// with the column it denotes here.
    pub fn find_columns(&self, labels: &Vec<String>) -> (df: DataFrame)
        requires
            forall|i: int| 0 <= i < labels@.len() ==> has_label(self, (#[trigger] labels@[i])@),
        ensures
            df.labels@ == labels@,
            df.columns@.len() == labels@.len(),
            forall|i: int|
                0 <= i < labels@.len() ==> #[trigger] df.columns@[i]@ == col_of(
                    self,
                    labels@[i]@,
                ),
    {
        let mut out_labels: Vec<String> = Vec::new();
        let mut columns: Vec<Vec<ColumnVal>> = Vec::new();
        let mut k: usize = 0;
        while k < labels.len()
            invariant
                forall|i: int| 0 <= i < labels@.len() ==> has_label(self, (#[trigger] labels@[i])@),
                k <= labels@.len(),
                out_labels@ == labels@.take(k as int),
                columns@.len() == k,
                forall|i: int|
                    0 <= i < k ==> #[trigger] columns@[i]@ == col_of(self, labels@[i]@),
            decreases labels@.len() - k,
        {
            let si = self.find_column_index(labels[k].as_str()).unwrap();
            out_labels.push(labels[k].clone());
            columns.push(clone_column(&self.columns[si]));
            proof {
                assert(out_labels@ =~= labels@.take(k + 1));
            }
            k = k + 1;
        }
        proof {
            assert(labels@.take(labels@.len() as int) =~= labels@);
        }
        DataFrame { labels: out_labels, columns }
    }

    /// The same selection as find_columns, copying the label list whole.
    pub fn restrict_columns(&self, labels: &Vec<String>) -> (df: DataFrame)
        requires
            forall|i: int| 0 <= i < labels@.len() ==> has_label(self, (#[trigger] labels@[i])@),
        ensures
            df.labels@ == labels@,
            df.columns@.len() == labels@.len(),
            forall|i: int|
                0 <= i < labels@.len() ==> #[trigger] df.columns@[i]@ == col_of(
                    self,
                    labels@[i]@,
                ),
    {
        let out_labels = clone_string_vec(labels);
        let mut columns: Vec<Vec<ColumnVal>> = Vec::new();
        let mut k: usize = 0;
        while k < labels.len()
            invariant
                forall|i: int| 0 <= i < labels@.len() ==> has_label(self, (#[trigger] labels@[i])@),
                k <= labels@.len(),
                columns@.len() == k,
                forall|i: int|
                    0 <= i < k ==> #[trigger] columns@[i]@ == col_of(self, labels@[i]@),
            decreases labels@.len() - k,
        {
            let si = self.find_column_index(labels[k].as_str()).unwrap();
            columns.push(clone_column(&self.columns[si]));
            k = k + 1;
        }
        DataFrame { labels: out_labels, columns }
    }

    /// A frame with the same labels keeping exactly the rows on which the
    /// given test accepts the chosen column's cell; every column is cut by
    /// the same row mask, so rows stay aligned.
    pub fn filter<F: Fn(&ColumnVal) -> bool>(&self, label: &str, operation: F) -> (df: DataFrame)
        requires
            frame_wf(self),
            has_label(self, label@),
            forall|v: &ColumnVal| #[trigger] call_requires(operation, (v,)),
        ensures
            df.labels@ == self.labels@,
            df.columns@.len() == self.columns@.len(),
            exists|m: Seq<bool>|
                {
                    &&& m.len() == spec_nrows(self)
                    &&& forall|i: int|
                        0 <= i < self.columns@.len() ==> #[trigger] df.columns@[i]@ == mask_filter(
                            self.columns@[i]@,
                            m,
                        )
                    &&& forall|j: int|
                        0 <= j < m.len() ==> call_ensures(
                            operation,
                            (&col_of(self, label@)[j],),
                            #[trigger] m[j],
                        )
                },
    {
        let si = self.find_column_index(label).unwrap();
        let key = &self.columns[si];
        let mut mask: Vec<bool> = Vec::new();
        let mut k: usize = 0;
        while k < key.len()
            invariant
                forall|v: &ColumnVal| #[trigger] call_requires(operation, (v,)),
                k <= key@.len(),
                mask@.len() == k,
                forall|j: int|
                    0 <= j < k ==> call_ensures(operation, (&key@[j],), #[trigger] mask@[j]),
            decreases key@.len() - k,
        {
            let keep = operation(&key[k]);
            mask.push(keep);
            k = k + 1;
        }
        let labels = clone_string_vec(&self.labels);
        let mut columns: Vec<Vec<ColumnVal>> = Vec::new();
        let mut c: usize = 0;
        while c < self.columns.len()
            invariant
                frame_wf(self),
                mask@.len() == spec_nrows(self),
                c <= self.columns@.len(),
                columns@.len() == c,
                forall|i: int|
                    0 <= i < c ==> #[trigger] columns@[i]@ == mask_filter(
                        self.columns@[i]@,
                        mask@,
                    ),
            decreases self.columns@.len() - c,
        {
            columns.push(filter_one(&self.columns[c], &mask));
            c = c + 1;
        }
        DataFrame { labels, columns }
    }

    /// Hands the columns the labels denote, in order, to the given
    /// operation and returns whatever it produces for them.
    pub fn column_op<F: Fn(&Vec<Vec<ColumnVal>>) -> Vec<ColumnVal>>(
        &self,
        labels: &Vec<String>,
        op: F,
    ) -> (r: Vec<ColumnVal>)
        requires
            forall|i: int| 0 <= i < labels@.len() ==> has_label(self, (#[trigger] labels@[i])@),
            forall|v: &Vec<Vec<ColumnVal>>| #[trigger] call_requires(op, (v,)),
        ensures
            exists|sel: Vec<Vec<ColumnVal>>|
                {
                    &&& sel@.len() == labels@.len()
                    &&& (forall|i: int|
                        0 <= i < labels@.len() ==> (#[trigger] sel@[i])@ == col_of(
                            self,
                            labels@[i]@,
                        ))
                    &&& call_ensures(op, (&sel,), r)
                },
    {
        let mut sel: Vec<Vec<ColumnVal>> = Vec::new();
        let mut k: usize = 0;
        while k < labels.len()
            invariant
                forall|i: int| 0 <= i < labels@.len() ==> has_label(self, (#[trigger] labels@[i])@),
                k <= labels@.len(),
                sel@.len() == k,
                forall|i: int| 0 <= i < k ==> (#[trigger] sel@[i])@ == col_of(self, labels@[i]@),
            decreases labels@.len() - k,
        {
            let si = self.find_column_index(labels[k].as_str()).unwrap();
            sel.push(clone_column(&self.columns[si]));
            k = k + 1;
        }
        op(&sel)
    }

    /// Subtracts the second column from the first, row by row, over the
    /// rows where both cells hold integers.
    pub fn sub_columns(&self, label1: &str, label2: &str) -> (r: Vec<i64>)
        requires
            frame_wf(self),
            has_label(self, label1@),
            has_label(self, label2@),
            forall|k: int|
                0 <= k < spec_sub_columns(col_of(self, label1@), col_of(self, label2@)).len()
                    ==> i64::MIN <= #[trigger] spec_sub_columns(
                    col_of(self, label1@),
                    col_of(self, label2@),
                )[k] <= i64::MAX,
        ensures
            r@.len() == spec_sub_columns(col_of(self, label1@), col_of(self, label2@)).len(),
            forall|k: int|
                0 <= k < r@.len() ==> #[trigger] r@[k] == spec_sub_columns(
                    col_of(self, label1@),
                    col_of(self, label2@),
                )[k],
    {
        let i1 = self.find_column_index(label1).unwrap();
        let i2 = self.find_column_index(label2).unwrap();
        let c1 = &self.columns[i1];
        let c2 = &self.columns[i2];
        let ghost g1 = c1@;
        let ghost g2 = c2@;
        proof {
            assert(g1 == col_of(self, label1@));
            assert(g2 == col_of(self, label2@));
            assert(g1.take(0) =~= Seq::<ColumnVal>::empty());
            assert(g2.take(0) =~= Seq::<ColumnVal>::empty());
        }
        let mut out: Vec<i64> = Vec::new();
        let mut k: usize = 0;
        while k < c1.len()
            invariant
                g1 == c1@,
                g2 == c2@,
                c1@.len() == c2@.len(),
                k <= c1@.len(),
                forall|j: int|
                    0 <= j < spec_sub_columns(g1, g2).len() ==> i64::MIN
                        <= #[trigger] spec_sub_columns(g1, g2)[j] <= i64::MAX,
                out@.len() == spec_sub_columns(g1.take(k as int), g2.take(k as int)).len(),
                forall|j: int|
                    0 <= j < out@.len() ==> #[trigger] out@[j] == spec_sub_columns(
                        g1.take(k as int),
                        g2.take(k as int),
                    )[j],
                spec_sub_columns(g1.take(k as int), g2.take(k as int)).len() <= spec_sub_columns(
                    g1,
                    g2,
                ).len(),
                forall|j: int|
                    0 <= j < out@.len() ==> spec_sub_columns(g1.take(k as int), g2.take(k as int))[j]
                        == spec_sub_columns(g1, g2)[j],
            decreases c1@.len() - k,
        {
            proof {
                assert(g1.take(k + 1).drop_last() =~= g1.take(k as int));
                assert(g2.take(k + 1).drop_last() =~= g2.take(k as int));
                assert(g1.take(k + 1).last() == g1[k as int]);
                assert(g2.take(k + 1).last() == g2[k as int]);
                lemma_sub_prefix(g1, g2, k + 1);
            }
            let keep = match (&c1[k], &c2[k]) {
                (ColumnVal::Four(v1), ColumnVal::Four(v2)) => Some((*v1, *v2)),
                _ => None,
            };
            if let Some((v1, v2)) = keep {
                proof {
                    let s1 = spec_sub_columns(g1.take(k as int), g2.take(k as int));
                    let s2 = spec_sub_columns(g1.take(k + 1), g2.take(k + 1));
                    assert(s2 == s1.push(v1 - v2));
                    assert(s2[s2.len() - 1] == spec_sub_columns(g1, g2)[s2.len() - 1]);
                }
                out.push(v1 - v2);
            }
            k = k + 1;
        }
        proof {
            assert(g1.take(g1.len() as int) =~= g1);
            assert(g2.take(g2.len() as int) =~= g2);
        }
        out
    }
}

/// Every prefix of the subtraction sequence is a prefix of the whole.
proof fn lemma_sub_prefix(a: Seq<ColumnVal>, b: Seq<ColumnVal>, k: int)
    requires
        a.len() == b.len(),
        0 <= k <= a.len(),
    ensures
        spec_sub_columns(a.take(k), b.take(k)).len() <= spec_sub_columns(a, b).len(),
        forall|j: int|
            0 <= j < spec_sub_columns(a.take(k), b.take(k)).len()
                ==> #[trigger] spec_sub_columns(a.take(k), b.take(k))[j] == spec_sub_columns(
                a,
                b,
            )[j],
    decreases a.len() - k,
{
    if k < a.len() {
        lemma_sub_prefix(a, b, k + 1);
        assert(a.take(k + 1).drop_last() =~= a.take(k));
        assert(b.take(k + 1).drop_last() =~= b.take(k));
        assert(a.take(k + 1).last() == a[k]);
        assert(b.take(k + 1).last() == b[k]);
        let s1 = spec_sub_columns(a.take(k), b.take(k));
        let s2 = spec_sub_columns(a.take(k + 1), b.take(k + 1));
        match (a[k], b[k]) {
            (ColumnVal::Four(x), ColumnVal::Four(y)) => {
                assert(s2 == s1.push(x - y));
            },
            _ => {
                assert(s2 == s1);
            },
        }
        assert forall|j: int| 0 <= j < s1.len() implies s1[j] == spec_sub_columns(a, b)[j] by {
            assert(s1[j] == s2[j]);
            assert(spec_sub_columns(a.take(k + 1), b.take(k + 1))[j] == spec_sub_columns(a, b)[j]);
        }
    } else {
        assert(a.take(k) =~= a);
        assert(b.take(k) =~= b);
    }
}

/// A copy of a label list.
fn clone_string_vec(v: &Vec<String>) -> (r: Vec<String>)
    ensures
        r@ == v@,
{
    let mut r: Vec<String> = Vec::new();
    let mut k: usize = 0;
    while k < v.len()
        invariant
            k <= v@.len(),
            r@ == v@.take(k as int),
        decreases v@.len() - k,
    {
        r.push(v[k].clone());
        proof {
            assert(r@ =~= v@.take(k + 1));
        }
        k = k + 1;
    }
    proof {
        assert(v@.take(v@.len() as int) =~= v@);
    }
    r
}

/// A copy of one column.
fn clone_column(v: &Vec<ColumnVal>) -> (r: Vec<ColumnVal>)
    ensures
        r@ == v@,
{
    let mut r: Vec<ColumnVal> = Vec::new();
    let mut k: usize = 0;
    while k < v.len()
        invariant
            k <= v@.len(),
            r@ == v@.take(k as int),
        decreases v@.len() - k,
    {
        let c = match &v[k] {
            ColumnVal::One(s) => ColumnVal::One(s.clone()),
            ColumnVal::Two(b) => ColumnVal::Two(*b),
            ColumnVal::Three(f) => ColumnVal::Three(*f),
            ColumnVal::Four(i) => ColumnVal::Four(*i),
        };
        r.push(c);
        proof {
            assert(r@ =~= v@.take(k + 1));
        }
        k = k + 1;
    }
    proof {
        assert(v@.take(v@.len() as int) =~= v@);
    }
    r
}

/// A copy of all columns.
fn clone_columns(v: &Vec<Vec<ColumnVal>>) -> (r: Vec<Vec<ColumnVal>>)
    ensures
        r@.len() == v@.len(),
        forall|i: int| 0 <= i < v@.len() ==> #[trigger] r@[i]@ == v@[i]@,
{
    let mut r: Vec<Vec<ColumnVal>> = Vec::new();
    let mut k: usize = 0;
    while k < v.len()
        invariant
            k <= v@.len(),
            r@.len() == k,
            forall|i: int| 0 <= i < k ==> #[trigger] r@[i]@ == v@[i]@,
        decreases v@.len() - k,
    {
        r.push(clone_column(&v[k]));
        k = k + 1;
    }
    r
}

/// The rows of one column kept by the mask.
fn filter_one(col: &Vec<ColumnVal>, mask: &Vec<bool>) -> (r: Vec<ColumnVal>)
    requires
        col@.len() == mask@.len(),
    ensures
        r@ == mask_filter(col@, mask@),
{
    let mut r: Vec<ColumnVal> = Vec::new();
    let mut k: usize = 0;
    while k < col.len()
        invariant
            col@.len() == mask@.len(),
            k <= col@.len(),
            r@ == mask_filter(col@.take(k as int), mask@.take(k as int)),
        decreases col@.len() - k,
    {
        proof {
            assert(col@.take(k + 1).drop_last() =~= col@.take(k as int));
            assert(mask@.take(k + 1).drop_last() =~= mask@.take(k as int));
        }
        if mask[k] {
            let c = match &col[k] {
                ColumnVal::One(s) => ColumnVal::One(s.clone()),
                ColumnVal::Two(b) => ColumnVal::Two(*b),
                ColumnVal::Three(f) => ColumnVal::Three(*f),
                ColumnVal::Four(i) => ColumnVal::Four(*i),
            };
            r.push(c);
        }
        k = k + 1;
    }
    proof {
        assert(col@.take(col@.len() as int) =~= col@);
        assert(mask@.take(mask@.len() as int) =~= mask@);
    }
    r
}

} // verus!
