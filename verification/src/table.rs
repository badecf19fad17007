//! The column-homogeneous table that reassembly produces, together with
//! vertical stacking and the schema reconciliation used when chunks
//! disagree on their column sets.
//!
//! A cell is `Option<String>`: `None` is a null cell, used to pad a
//! column that a narrower table lacks.

use vstd::prelude::*;
use vstd::string::StringExecFns;

use crate::utils::EkError;

verus! {

/// First index of `t` in `names`, if present.
pub open spec fn spec_find_name(names: Seq<Seq<char>>, t: Seq<char>) -> Option<int>
    decreases names.len(),
{
    if names.len() == 0 {
        Option::None
    } else if names[0] == t {
        Option::Some(0int)
    } else {
        match spec_find_name(names.drop_first(), t) {
            Option::Some(i) => Option::Some(i + 1),
            Option::None => Option::None,
        }
    }
}

pub broadcast proof fn lemma_find_name_props(names: Seq<Seq<char>>, t: Seq<char>)
    ensures
        (#[trigger] spec_find_name(names, t)) is None <==> !names.contains(t),
        spec_find_name(names, t) matches Option::Some(i) ==> 0 <= i < names.len() && names[i] == t
            && forall|k: int| 0 <= k < i ==> names[k] != t,
    decreases names.len(),
{
    if names.len() > 0 {
        lemma_find_name_props(names.drop_first(), t);
        if names[0] != t {
            assert(names.contains(t) <==> names.drop_first().contains(t)) by {
                if names.contains(t) {
                    let w = choose|w: int| 0 <= w < names.len() && names[w] == t;
                    assert(names.drop_first()[w - 1] == t);
                }
                if names.drop_first().contains(t) {
                    let w = choose|w: int|
                        0 <= w < names.drop_first().len() && names.drop_first()[w] == t;
                    assert(names[w + 1] == t);
                }
            }
            match spec_find_name(names.drop_first(), t) {
                Option::Some(ti) => {
                    assert(names[ti + 1] == names.drop_first()[ti]);
                    assert forall|k: int| 0 <= k < ti + 1 implies names[k] != t by {
                        if k > 0 {
                            assert(names.drop_first()[k - 1] != t);
                            assert(names[k] == names.drop_first()[k - 1]);
                        }
                    }
                },
                Option::None => {},
            }
        }
    }
}

proof fn lemma_find_name_skip(names: Seq<Seq<char>>, t: Seq<char>, j: int)
    requires
        0 <= j <= names.len(),
        forall|k: int| 0 <= k < j ==> names[k] != t,
    ensures
        spec_find_name(names, t) == match spec_find_name(names.skip(j), t) {
            Option::Some(i) => Option::Some(i + j),
            Option::None => Option::None::<int>,
        },
    decreases j,
{
    if j > 0 {
        lemma_find_name_skip(names, t, j - 1);
        assert(names.skip(j - 1).len() > 0);
        assert(names.skip(j - 1)[0] == names[j - 1]);
        assert(names.skip(j - 1).drop_first() =~= names.skip(j));
    } else {
        assert(names.skip(0) =~= names);
    }
}

/// First index of `target` in `names`.
#[verifier::loop_isolation(false)]
pub fn find_name(names: &Vec<String>, target: &String) -> (r: Option<usize>)
    ensures
        match r {
            Option::Some(i) => spec_find_name(names.deep_view(), target@) == Option::Some(i as int),
            Option::None => spec_find_name(names.deep_view(), target@) is None,
        },
{
    let ghost gnames = names.deep_view();
    let n = names.len();
    let mut j: usize = 0;
    while j < n
        invariant
            j <= n,
            forall|k: int| 0 <= k < j ==> gnames[k] != target@,
        decreases n - j,
    {
        if names[j] == *target {
            proof {
                lemma_find_name_skip(gnames, target@, j as int);
                assert(gnames.skip(j as int)[0] == gnames[j as int]);
            }
            return Option::Some(j);
        }
        j = j + 1;
    }
    proof {
        lemma_find_name_skip(gnames, target@, n as int);
        assert(gnames.skip(n as int).len() == 0);
    }
    Option::None
}

/// Every name of `xs` occurs in `ys`.
pub open spec fn spec_subset_names(xs: Seq<Seq<char>>, ys: Seq<Seq<char>>) -> bool {
    forall|k: int| 0 <= k < xs.len() ==> ys.contains(#[trigger] xs[k])
}

/// No two of these names are the same.
pub open spec fn spec_distinct(names: Seq<Seq<char>>) -> bool {
    forall|i: int, j: int| 0 <= i < j < names.len() ==> names[i] != names[j]
}

/// The merged, column-homogeneous result: one named column per header,
/// all columns of equal length.
#[derive(Debug, Clone, PartialEq, Eq)]
pub struct Table {
    pub names: Vec<String>,
    pub cols: Vec<Vec<Option<String>>>,
}

impl Table {
    /// Column names as sequences of characters.
    pub open spec fn spec_names(self) -> Seq<Seq<char>> {
        self.names.deep_view()
    }

    /// Column contents, each cell either null or text.
    pub open spec fn spec_cols(self) -> Seq<Seq<Option<Seq<char>>>> {
        self.cols.deep_view()
    }

    /// Number of rows.
    pub open spec fn spec_height(self) -> nat {
        if self.cols.len() == 0 {
            0
        } else {
            self.spec_cols()[0].len()
        }
    }

    /// Well-formedness: one column per name, no two columns share a
    /// name, and no column is ragged.
    pub open spec fn wf(self) -> bool {
        &&& self.names.len() == self.cols.len()
        &&& forall|i: int|
            0 <= i < self.cols.len() ==> (#[trigger] self.spec_cols()[i]).len()
                == self.spec_height()
        &&& forall|i: int, j: int|
            0 <= i < j < self.names.len() ==> self.spec_names()[i] != self.spec_names()[j]
    }

    /// Number of rows.
    pub fn height(&self) -> (r: usize)
        ensures
            r == self.spec_height(),
    {
        if self.cols.len() == 0 {
            0
        } else {
            self.cols[0].len()
        }
    }

    /// Number of columns.
    pub fn width(&self) -> (r: usize)
        ensures
            r == self.names.len(),
    {
        self.names.len()
    }

    /// Build a table from named columns, as the reassembler hands them
    /// over. Rejected when a column is ragged or two names collide.
    #[verifier::loop_isolation(false)]
    pub fn new_from_columns(names: Vec<String>, cols: Vec<Vec<Option<String>>>) -> (r: Result<
        Table,
        EkError,
    >)
        ensures
            r matches Ok(t) ==> t.names == names && t.cols == cols && t.wf(),
            r is Ok <==> (Table { names, cols }).wf(),
            r matches Err(e) ==> e is NoDataFrame,
    {
        let t = Table { names, cols };
        if t.names.len() != t.cols.len() {
            return Err(EkError::NoDataFrame(String::from_str("one name per column is needed")));
        }
        let n = t.cols.len();
        let height = t.height();
        let mut i: usize = 0;
        while i < n
            invariant
                i <= n,
                forall|k: int| 0 <= k < i ==> (#[trigger] t.spec_cols()[k]).len() == t.spec_height(),
            decreases n - i,
        {
            if t.cols[i].len() != height {
                proof {
                    assert(t.spec_cols()[i as int].len() != t.spec_height());
                    assert(!t.wf());
                }
                return Err(EkError::NoDataFrame(String::from_str("ragged columns")));
            }
            i = i + 1;
        }
        let mut i: usize = 0;
        while i < n
            invariant
                i <= n,
                forall|a: int, b: int|
                    0 <= a < b < t.names.len() && a < i ==> t.spec_names()[a] != t.spec_names()[b],
            decreases n - i,
        {
            let mut j: usize = i + 1;
            while j < n
                invariant
                    i < j <= n,
                    forall|b: int| i < b < j ==> t.spec_names()[i as int] != t.spec_names()[b],
                decreases n - j,
            {
                if t.names[i] == t.names[j] {
                    proof {
                        assert(t.spec_names()[i as int] == t.spec_names()[j as int]);
                        assert(!t.wf());
                    }
                    return Err(EkError::NoDataFrame(String::from_str("duplicate column names")));
                }
                j = j + 1;
            }
            i = i + 1;
        }
        Ok(t)
    }

    /// Strict vertical concatenation: both tables must carry the same
    /// column names in the same order.
    #[verifier::loop_isolation(false)]
    pub fn vstack(&self, other: &Table) -> (r: Result<Table, EkError>)
        requires
            self.wf(),
            other.wf(),
        ensures
            r is Ok <==> self.spec_names() == other.spec_names(),
            r matches Ok(t) ==> {
                &&& t.spec_names() == self.spec_names()
                &&& t.cols.len() == self.cols.len()
                &&& forall|j: int|
                    0 <= j < t.cols.len() ==> #[trigger] t.spec_cols()[j] == self.spec_cols()[j]
                        + other.spec_cols()[j]
                &&& t.wf()
                &&& t.spec_height() == self.spec_height() + other.spec_height()
            },
            r matches Err(e) ==> e is NoDataFrame,
    {
        if self.names.len() != other.names.len() {
            proof {
                assert(self.spec_names().len() != other.spec_names().len());
            }
            return Err(EkError::NoDataFrame(String::from_str("column sets differ")));
        }
        let n = self.names.len();
        let mut i: usize = 0;
        while i < n
            invariant
                i <= n,
                forall|k: int| 0 <= k < i ==> self.spec_names()[k] == other.spec_names()[k],
            decreases n - i,
        {
            if !(self.names[i] == other.names[i]) {
                proof {
                    assert(self.spec_names()[i as int] != other.spec_names()[i as int]);
                }
                return Err(EkError::NoDataFrame(String::from_str("column sets differ")));
            }
            i = i + 1;
        }
        proof {
            assert(self.spec_names() =~= other.spec_names());
        }
        let mut cols: Vec<Vec<Option<String>>> = Vec::new();
        let mut j: usize = 0;
        while j < n
            invariant
                j <= n,
                cols@.len() == j,
                forall|k: int|
                    0 <= k < j ==> (#[trigger] cols@[k]).deep_view() == self.spec_cols()[k]
                        + other.spec_cols()[k],
            decreases n - j,
        {
            let mut c = clone_col(&self.cols[j]);
            let mut o = clone_col(&other.cols[j]);
            c.append(&mut o);
            proof {
                assert(c.deep_view() =~= self.spec_cols()[j as int] + other.spec_cols()[j as int]);
            }
            cols.push(c);
            j = j + 1;
        }
        let names = clone_names(&self.names);
        let t = Table { names, cols };
        proof {
            assert(t.spec_names() =~= self.spec_names());
            assert(forall|k: int|
                0 <= k < n ==> (#[trigger] t.spec_cols()[k]).len() == t.spec_height());
        }
        Ok(t)
    }
}

/// A column of `height` null cells, standing in for a column the
/// narrower table does not have.
#[verifier::loop_isolation(false)]
pub fn null_column(height: usize) -> (r: Vec<Option<String>>)
    ensures
        r.deep_view() =~= Seq::new(height as nat, |i: int| Option::<Seq<char>>::None),
{
    let mut c: Vec<Option<String>> = Vec::new();
    let mut i: usize = 0;
    while i < height
        invariant
            i <= height,
            c@.len() == i,
            forall|k: int| 0 <= k < i ==> c@[k] is None,
        decreases height - i,
    {
        c.push(Option::None);
        i = i + 1;
    }
    proof {
        assert(c.deep_view() =~= Seq::new(height as nat, |i: int| Option::<Seq<char>>::None));
    }
    c
}

/// Clone of one column, cell for cell.
#[verifier::loop_isolation(false)]
pub fn clone_col(c: &Vec<Option<String>>) -> (r: Vec<Option<String>>)
    ensures
        r@ == c@,
{
    let mut r: Vec<Option<String>> = Vec::new();
    let n = c.len();
    let mut i: usize = 0;
    while i < n
        invariant
            i <= n,
            r@ =~= c@.take(i as int),
        decreases n - i,
    {
        match &c[i] {
            Option::Some(s) => {
                r.push(Option::Some(s.clone()));
            },
            Option::None => {
                r.push(Option::None);
            },
        }
        proof {
            assert(r@ =~= c@.take(i + 1));
        }
        i = i + 1;
    }
    proof {
        assert(c@.take(n as int) =~= c@);
    }
    r
}

/// Clone of a name list, name for name.
#[verifier::loop_isolation(false)]
pub fn clone_names(names: &Vec<String>) -> (r: Vec<String>)
    ensures
        r@ == names@,
{
    let mut r: Vec<String> = Vec::new();
    let n = names.len();
    let mut i: usize = 0;
    while i < n
        invariant
            i <= n,
            r@ =~= names@.take(i as int),
        decreases n - i,
    {
        r.push(names[i].clone());
        proof {
            assert(r@ =~= names@.take(i + 1));
        }
        i = i + 1;
    }
    proof {
        assert(names@.take(n as int) =~= names@);
    }
    r
}

/// The column a reconciled stack appends under the wider table's column
/// `j`: the narrower table's column of the same name, or nulls.
pub open spec fn spec_padded_col(long: Table, short: Table, j: int) -> Seq<Option<Seq<char>>> {
    match spec_find_name(short.spec_names(), long.spec_names()[j]) {
        Option::Some(k) => short.spec_cols()[k],
        Option::None => Seq::new(short.spec_height(), |i: int| Option::<Seq<char>>::None),
    }
}

/// Reconciling vertical concatenation: every column of `short` must
/// exist in `long`; columns of `long` that `short` lacks are padded with
/// nulls, and `short`'s columns are reordered to `long`'s column order.
/// No row of either table is dropped.
#[verifier::loop_isolation(false)]
pub fn vstack_diag(long: Table, short: Table) -> (r: Result<Table, EkError>)
    requires
        long.wf(),
        short.wf(),
    ensures
        r is Ok <==> spec_subset_names(short.spec_names(), long.spec_names()),
        r matches Ok(t) ==> {
            &&& t.spec_names() == long.spec_names()
            &&& t.cols.len() == long.cols.len()
            &&& forall|j: int|
                0 <= j < t.cols.len() ==> #[trigger] t.spec_cols()[j] == long.spec_cols()[j]
                    + spec_padded_col(long, short, j)
            &&& t.wf()
            &&& t.spec_height() == long.spec_height() + short.spec_height()
        },
        r matches Err(e) ==> e is NoDataFrame,
{
    proof {
        broadcast use lemma_find_name_props;

    }
    let sn = short.names.len();
    let mut k: usize = 0;
    while k < sn
        invariant
            k <= sn,
            forall|q: int|
                0 <= q < k ==> long.spec_names().contains(#[trigger] short.spec_names()[q]),
        decreases sn - k,
    {
        if find_name(&long.names, &short.names[k]).is_none() {
            proof {
                assert(!long.spec_names().contains(short.spec_names()[k as int]));
            }
            return Err(EkError::NoDataFrame(String::from_str("column missing from the wider table")));
        }
        k = k + 1;
    }
    let n = long.names.len();
    let short_height = short.height();
    let mut cols: Vec<Vec<Option<String>>> = Vec::new();
    let mut j: usize = 0;
    while j < n
        invariant
            j <= n,
            cols@.len() == j,
            forall|q: int|
                0 <= q < j ==> (#[trigger] cols@[q]).deep_view() == long.spec_cols()[q]
                    + spec_padded_col(long, short, q),
        decreases n - j,
    {
        let mut c = clone_col(&long.cols[j]);
        match find_name(&short.names, &long.names[j]) {
            Option::Some(k) => {
                let mut s = clone_col(&short.cols[k]);
                c.append(&mut s);
                proof {
                    assert(c.deep_view() =~= long.spec_cols()[j as int] + spec_padded_col(
                        long,
                        short,
                        j as int,
                    ));
                }
            },
            Option::None => {
                let mut s = null_column(short_height);
                c.append(&mut s);
                proof {
                    assert(c.deep_view() =~= long.spec_cols()[j as int] + spec_padded_col(
                        long,
                        short,
                        j as int,
                    ));
                }
            },
        }
        cols.push(c);
        j = j + 1;
    }
    let names = clone_names(&long.names);
    let t = Table { names, cols };
    proof {
        assert(t.spec_names() =~= long.spec_names());
        assert(forall|q: int| 0 <= q < n ==> (#[trigger] t.spec_cols()[q]).len() == t.spec_height());
    }
    Ok(t)
}

} // verus!
