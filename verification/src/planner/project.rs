//! Projection: the `SELECT` clause turns the values of its expressions into
//! rows. Each expression gives a column (an array gives one cell per
//! element); row by row, a cell that is itself an array is unnested, and each
//! row gives one object for each way of picking one element per nonempty
//! cell (a cartesian product).
use vstd::prelude::*;

use itertools::Itertools;

use crate::sql::env::{Env, EnvModel};
use crate::sql::eval::{eval_model, expr_eval, EvalError};
use crate::sql::expr::{opt_str, projs_model, AliasedModel, Expr};
use crate::sql::field::{target_name, Proj};
use crate::value::{
    entries_model, keys_distinct, lemma_insert_keeps_distinct, lemma_view_unfold, models,
    obj_insert, obj_keys, ObjectModel, PqlObject, PqlValue, ValueModel,
};

verus! {

broadcast use lemma_view_unfold;

/// The cartesian product of the ranges `0..lens[k]`: every tuple of indices,
/// in lexicographic order (the last index varies fastest). The product of no
/// ranges holds one empty tuple; a product with an empty range holds none.
pub open spec fn index_product(lens: Seq<usize>) -> Seq<Seq<usize>>
    decreases lens.len(),
{
    if lens.len() == 0 {
        seq![Seq::<usize>::empty()]
    } else {
        index_product(lens.drop_last()).map_values(
            |t: Seq<usize>| Seq::new(lens.last() as nat, |j: int| t.push(j as usize)),
        ).flatten()
    }
}

/// Runs itertools' `multi_cartesian_product` over the ranges `0..lens[k]`.
/// Claimed, as its documentation and examples show: the tuples of the
/// cartesian product in lexicographic order, one empty tuple when `lens` is
/// empty.
#[verifier::external_body]
fn cartesian_indices(lens: &Vec<usize>) -> (r: Vec<Vec<usize>>)
    ensures
        r@.len() == index_product(lens@).len(),
        forall|i: int| 0 <= i < r@.len() ==> (#[trigger] r@[i])@ == index_product(lens@)[i],
{
    lens.iter().map(|n| 0..*n).multi_cartesian_product().collect()
}

/// An element of a flattened sequence comes from one of the sequences.
proof fn lemma_flatten_index<A>(ss: Seq<Seq<A>>, i: int) -> (r: (int, int))
    requires
        0 <= i < ss.flatten().len(),
    ensures
        0 <= r.0 < ss.len(),
        0 <= r.1 < ss[r.0].len(),
        ss.flatten()[i] == ss[r.0][r.1],
    decreases ss.len(),
{
    if ss.len() == 0 {
        assert(ss.flatten() =~= Seq::<A>::empty());
        (0, 0)
    } else {
        let rest = ss.drop_first().flatten();
        assert(ss.flatten() == ss.first() + rest);
        if i < ss.first().len() {
            (0, i)
        } else {
            let (a, b) = lemma_flatten_index(ss.drop_first(), i - ss.first().len());
            (a + 1, b)
        }
    }
}

/// Every tuple of the product has one index per range, within that range.
pub proof fn lemma_index_product_bounds(lens: Seq<usize>, i: int)
    requires
        0 <= i < index_product(lens).len(),
    ensures
        index_product(lens)[i].len() == lens.len(),
        forall|k: int| 0 <= k < lens.len() ==> #[trigger] index_product(lens)[i][k] < lens[k],
    decreases lens.len(),
{
    if lens.len() > 0 {
        let prev = index_product(lens.drop_last());
        let ss = prev.map_values(
            |t: Seq<usize>| Seq::new(lens.last() as nat, |j: int| t.push(j as usize)),
        );
        let (a, b) = lemma_flatten_index(ss, i);
        lemma_index_product_bounds(lens.drop_last(), a);
        let t = prev[a];
        assert(index_product(lens)[i] == t.push(b as usize));
        assert forall|k: int| 0 <= k < lens.len() implies #[trigger] index_product(lens)[i][k]
            < lens[k] by {
            if k < lens.len() - 1 {
                assert(index_product(lens)[i][k] == t[k]);
                assert(lens.drop_last()[k] == lens[k]);
            }
        }
    }
}

/// The product of a list of sizes.
pub open spec fn product(lens: Seq<usize>) -> nat
    decreases lens.len(),
{
    if lens.len() == 0 {
        1
    } else {
        product(lens.drop_last()) * (lens.last() as nat)
    }
}

/// Flattening sequences that all have length `n` gives `n` elements per
/// sequence.
proof fn lemma_flatten_uniform<A>(ss: Seq<Seq<A>>, n: nat)
    requires
        forall|i: int| 0 <= i < ss.len() ==> (#[trigger] ss[i]).len() == n,
    ensures
        ss.flatten().len() == ss.len() * n,
    decreases ss.len(),
{
    if ss.len() > 0 {
        lemma_flatten_uniform(ss.drop_first(), n);
        assert(ss.flatten() == ss.first() + ss.drop_first().flatten());
        assert(ss.len() * n == n + (ss.len() - 1) * n) by (nonlinear_arith)
            requires
                ss.len() >= 1,
        ;
    }
}

/// The cartesian product of ranges has as many tuples as the product of
/// their sizes.
pub proof fn lemma_index_product_len(lens: Seq<usize>)
    ensures
        index_product(lens).len() == product(lens),
    decreases lens.len(),
{
    if lens.len() > 0 {
        lemma_index_product_len(lens.drop_last());
        let prev = index_product(lens.drop_last());
        let ss = prev.map_values(
            |t: Seq<usize>| Seq::new(lens.last() as nat, |j: int| t.push(j as usize)),
        );
        lemma_flatten_uniform(ss, lens.last() as nat);
    }
}

/// A row gives as many objects as the product of the numbers of cells of its
/// nonempty entries.
pub proof fn lemma_record_objects_len(r: RecordModel)
    ensures
        record_objects(r).len() == product(cell_counts(kept_entries(r))),
{
    lemma_index_product_len(cell_counts(kept_entries(r)));
}

/// A record: each column name with its cells, in column order.
pub type RecordModel = Seq<(Seq<char>, Seq<ValueModel>)>;

/// Whether an entry of a record has cells.
pub open spec fn has_cells(e: (Seq<char>, Seq<ValueModel>)) -> bool {
    e.1.len() > 0
}

/// The entries of a record that have cells, in order.
pub open spec fn kept_entries(r: RecordModel) -> RecordModel
    decreases r.len(),
{
    if r.len() == 0 {
        Seq::empty()
    } else if has_cells(r.last()) {
        kept_entries(r.drop_last()).push(r.last())
    } else {
        kept_entries(r.drop_last())
    }
}

/// The number of cells of each entry.
pub open spec fn cell_counts(r: RecordModel) -> Seq<usize> {
    r.map_values(|e: (Seq<char>, Seq<ValueModel>)| e.1.len() as usize)
}

/// The object that picks, for each entry of `kept`, the cell that `t`
/// names.
pub open spec fn pick(kept: RecordModel, t: Seq<usize>) -> ValueModel {
    ValueModel::Object(Seq::new(kept.len(), |k: int| (kept[k].0, kept[k].1[t[k] as int])))
}

/// The objects of a record: one for each tuple of the cartesian product of
/// the cells of its nonempty entries, in the order of the product.
pub open spec fn record_objects(r: RecordModel) -> Seq<ValueModel> {
    let kept = kept_entries(r);
    index_product(cell_counts(kept)).map_values(|t: Seq<usize>| pick(kept, t))
}

/// The objects of all records, record after record.
pub open spec fn records_objects(rs: Seq<RecordModel>) -> Seq<ValueModel> {
    rs.map_values(|r: RecordModel| record_objects(r)).flatten()
}

/// The keys of a record are pairwise distinct.
pub open spec fn record_keys_distinct(r: RecordModel) -> bool {
    forall|i: int, j: int| 0 <= i < j < r.len() ==> r[i].0 != r[j].0
}

/// The entries kept from a record are entries of the record, and their keys
/// stay distinct.
proof fn lemma_kept_entries(r: RecordModel)
    requires
        record_keys_distinct(r),
    ensures
        record_keys_distinct(kept_entries(r)),
        forall|i: int|
            0 <= i < kept_entries(r).len() ==> exists|j: int|
                0 <= j < r.len() && #[trigger] kept_entries(r)[i] == r[j],
    decreases r.len(),
{
    if r.len() > 0 {
        let p = r.drop_last();
        assert(record_keys_distinct(p));
        lemma_kept_entries(p);
        let kp = kept_entries(p);
        assert(kept_entries(r) == if has_cells(r.last()) {
            kp.push(r.last())
        } else {
            kp
        });
        assert forall|i: int| 0 <= i < kept_entries(r).len() implies exists|j: int|
            0 <= j < r.len() && #[trigger] kept_entries(r)[i] == r[j] by {
            if i < kp.len() {
                let j = choose|j: int| 0 <= j < p.len() && #[trigger] kp[i] == p[j];
                assert(r[j] == p[j]);
            } else {
                assert(kept_entries(r)[i] == r[r.len() - 1]);
            }
        }
        if has_cells(r.last()) {
            assert forall|i: int, j: int|
                0 <= i < j < kept_entries(r).len() implies kept_entries(r)[i].0 != kept_entries(
                r,
            )[j].0 by {
                if j == kp.len() {
                    let a = choose|a: int| 0 <= a < p.len() && #[trigger] kp[i] == p[a];
                    assert(r[a] == p[a]);
                    assert(r[a].0 != r[r.len() - 1].0);
                }
            }
        }
    }
}

/// The model of a record of the library.
pub open spec fn record_model(r: Seq<(String, Vec<PqlValue>)>) -> RecordModel {
    r.map_values(|e: (String, Vec<PqlValue>)| (e.0@, models(e.1@)))
}

/// Appends the objects of `rec` (see `record_objects`) to `out`.
fn push_record_objects(rec: &Vec<(String, Vec<PqlValue>)>, out: &mut Vec<PqlValue>)
    requires
        record_keys_distinct(record_model(rec@)),
    ensures
        models(final(out)@) == models(old(out)@) + record_objects(record_model(rec@)),
{
    let ghost rm = record_model(rec@);
    let mut kept: Vec<(String, Vec<PqlValue>)> = Vec::new();
    let mut lens: Vec<usize> = Vec::new();
    let mut i: usize = 0;
    while i < rec.len()
        invariant
            i <= rec@.len(),
            rm == record_model(rec@),
            record_model(kept@) == kept_entries(rm.take(i as int)),
            lens@ == cell_counts(record_model(kept@)),
            forall|k: int| 0 <= k < kept@.len() ==> (#[trigger] kept@[k]).1@.len() == lens@[k],
        decreases rec@.len() - i,
    {
        assert(rm.take(i + 1).drop_last() =~= rm.take(i as int));
        assert(rm.take(i + 1).last() == rm[i as int]);
        let e = &rec[i];
        if e.1.len() > 0 {
            let ghost before = record_model(kept@);
            let ghost lens_before = lens@;
            kept.push((e.0.clone(), crate::value::copy_values(&e.1)));
            lens.push(e.1.len());
            assert(record_model(kept@) =~= before.push(rm[i as int]));
            assert(lens@ =~= cell_counts(record_model(kept@)));
        }
        i = i + 1;
    }
    assert(rm.take(i as int) =~= rm);
    let ghost km = record_model(kept@);
    proof {
        lemma_kept_entries(rm);
    }
    let tuples = cartesian_indices(&lens);
    let ghost prod = index_product(lens@);
    let ghost start = models(out@);
    let mut ti: usize = 0;
    while ti < tuples.len()
        invariant
            ti <= tuples@.len(),
            tuples@.len() == prod.len(),
            forall|x: int| 0 <= x < tuples@.len() ==> (#[trigger] tuples@[x])@ == prod[x],
            prod == index_product(lens@),
            km == record_model(kept@),
            km == kept_entries(rm),
            record_keys_distinct(km),
            lens@ == cell_counts(km),
            forall|k: int| 0 <= k < kept@.len() ==> (#[trigger] kept@[k]).1@.len() == lens@[k],
            models(out@) == start + prod.take(ti as int).map_values(|t: Seq<usize>| pick(km, t)),
        decreases tuples@.len() - ti,
    {
        let t = &tuples[ti];
        proof {
            lemma_index_product_bounds(lens@, ti as int);
        }
        let mut entries: Vec<(String, PqlValue)> = Vec::new();
        let mut k: usize = 0;
        while k < kept.len()
            invariant
                k <= kept@.len(),
                t@ == prod[ti as int],
                prod == index_product(lens@),
                0 <= ti < prod.len(),
                prod[ti as int].len() == lens@.len(),
                forall|q: int| 0 <= q < lens@.len() ==> #[trigger] prod[ti as int][q] < lens@[q],
                lens@.len() == kept@.len(),
                km == record_model(kept@),
                forall|q: int| 0 <= q < kept@.len() ==> (#[trigger] kept@[q]).1@.len() == lens@[q],
                entries_model(entries@) =~= Seq::new(
                    k as nat,
                    |q: int| (km[q].0, km[q].1[t@[q] as int]),
                ),
            decreases kept@.len() - k,
        {
            let idx = t[k];
            assert(idx < lens@[k as int]);
            let ent = &kept[k];
            let ghost before = entries_model(entries@);
            entries.push((ent.0.clone(), ent.1[idx].copy()));
            assert(entries_model(entries@) =~= before.push((km[k as int].0, km[k as int].1[t@[k as int] as int])));
            k = k + 1;
        }
        proof {
            assert(keys_distinct(entries_model(entries@))) by {
                assert forall|a: int, b: int|
                    0 <= a < b < entries_model(entries@).len() implies entries_model(
                    entries@,
                )[a].0 != entries_model(entries@)[b].0 by {
                    assert(entries_model(entries@)[a].0 == km[a].0);
                    assert(entries_model(entries@)[b].0 == km[b].0);
                }
            }
        }
        let obj = PqlObject::from_entries(entries);
        let v = PqlValue::Object(obj);
        assert(v@ == pick(km, prod[ti as int]));
        let ghost before = models(out@);
        out.push(v);
        assert(models(out@) =~= before.push(v@));
        assert(prod.take(ti + 1).map_values(|t: Seq<usize>| pick(km, t)) =~= prod.take(
            ti as int,
        ).map_values(|t: Seq<usize>| pick(km, t)).push(pick(km, prod[ti as int])));
        ti = ti + 1;
    }
    assert(prod.take(ti as int) =~= prod);
    assert(lens@ =~= cell_counts(kept_entries(rm)));
}

/// Rows of a projection, each a record of column names and cells.
pub struct Records(pub Vec<Vec<(String, Vec<PqlValue>)>>);

/// The models of the records.
pub open spec fn records_model(rs: Seq<Vec<(String, Vec<PqlValue>)>>) -> Seq<RecordModel> {
    rs.map_values(|r: Vec<(String, Vec<PqlValue>)>| record_model(r@))
}

impl Records {
    /// Whether the column names of each record are pairwise distinct.
    pub open spec fn wf(&self) -> bool {
        forall|i: int| 0 <= i < self.0@.len() ==> record_keys_distinct(#[trigger] record_model(self.0@[i]@))
    }

    /// The objects of all records (see `records_objects`).
    pub fn into_list(self) -> (r: Vec<PqlValue>)
        requires
            self.wf(),
        ensures
            models(r@) == records_objects(records_model(self.0@)),
    {
        let ghost rs = records_model(self.0@);
        let mut out: Vec<PqlValue> = Vec::new();
        let mut i: usize = 0;
        assert(models(out@) =~= Seq::<ValueModel>::empty());
        assert(rs.take(0).map_values(|r: RecordModel| record_objects(r)) =~= Seq::<Seq<ValueModel>>::empty());
        while i < self.0.len()
            invariant
                i <= self.0@.len(),
                rs == records_model(self.0@),
                self.wf(),
                models(out@) == rs.take(i as int).map_values(|r: RecordModel| record_objects(r)).flatten(),
            decreases self.0@.len() - i,
        {
            let ghost before = models(out@);
            assert(rs[i as int] == record_model(self.0@[i as int]@));
            push_record_objects(&self.0[i], &mut out);
            proof {
                let f = |r: RecordModel| record_objects(r);
                assert(rs.take(i + 1).map_values(f) =~= rs.take(i as int).map_values(f).push(f(rs[i as int])));
                rs.take(i as int).map_values(f).lemma_flatten_push(f(rs[i as int]));
            }
            i = i + 1;
        }
        assert(rs.take(i as int) =~= rs);
        out
    }

    /// The objects of all records, as an array.
    pub fn into_pqlv(self) -> (r: PqlValue)
        requires
            self.wf(),
        ensures
            r@ == ValueModel::Array(records_objects(records_model(self.0@))),
    {
        PqlValue::Array(self.into_list())
    }
}


/// The cells of a value: the elements of an array, or the value alone.
pub open spec fn cells(v: ValueModel) -> Seq<ValueModel> {
    match v {
        ValueModel::Array(a) => a,
        _ => seq![v],
    }
}

/// The number of rows of a book of columns: set by the first array column
/// (its length) unless already set, and to one by any other column.
pub open spec fn column_size(m: ObjectModel) -> nat
    decreases m.len(),
{
    if m.len() == 0 {
        0
    } else {
        let n = column_size(m.drop_last());
        match m.last().1 {
            ValueModel::Array(a) => if n == 0 {
                a.len()
            } else {
                n
            },
            _ => 1,
        }
    }
}

/// Every column of the book has a cell for every row.
pub open spec fn columns_long_enough(m: ObjectModel) -> bool {
    forall|k: int| 0 <= k < m.len() ==> cells(#[trigger] m[k].1).len() >= column_size(m)
}

/// The rows of a book of columns: row `i` gives each column name with the
/// cells of the `i`-th cell of its column.
pub open spec fn book_rows(m: ObjectModel) -> Seq<RecordModel> {
    Seq::new(
        column_size(m),
        |i: int| Seq::new(m.len(), |k: int| (m[k].0, cells(cells(m[k].1)[i]))),
    )
}

/// Columns of projected values, by name.
pub struct FieldBook {
    pub target_keys: Vec<String>,
    pub target_fields: Vec<Vec<PqlValue>>,
    pub column_size: usize,
}

impl FieldBook {
    /// The book is the one of the object `m`.
    pub open spec fn is_book_of(&self, m: ObjectModel) -> bool {
        &&& self.target_keys@.len() == m.len()
        &&& self.target_fields@.len() == m.len()
        &&& forall|k: int| 0 <= k < m.len() ==> (#[trigger] self.target_keys@[k])@ == m[k].0
        &&& forall|k: int|
            #![trigger self.target_fields@[k]]
            0 <= k < m.len() ==> models(self.target_fields@[k]@) == cells(m[k].1)
        &&& self.column_size == column_size(m)
    }

    /// The book of the columns of an object (see `column_size` and
    /// `cells`); an empty book for anything else.
    pub fn from_value(v: PqlValue) -> (r: FieldBook)
        ensures
            match v@ {
                ValueModel::Object(m) => r.is_book_of(m),
                _ => r.target_keys@.len() == 0 && r.target_fields@.len() == 0 && r.column_size
                    == 0,
            },
    {
        match v {
            PqlValue::Object(o) => {
                let ghost m = o@;
                let mut keys: Vec<String> = Vec::new();
                let mut fields: Vec<Vec<PqlValue>> = Vec::new();
                let mut n: usize = 0;
                let mut i: usize = 0;
                while i < o.len()
                    invariant
                        i <= m.len(),
                        m == o@,
                        keys@.len() == i,
                        fields@.len() == i,
                        forall|k: int| 0 <= k < i ==> (#[trigger] keys@[k])@ == m[k].0,
                        forall|k: int|
                            #![trigger fields@[k]]
                            0 <= k < i ==> models(fields@[k]@) == cells(m[k].1),
                        n == column_size(m.take(i as int)),
                    decreases m.len() - i,
                {
                    assert(m.take(i + 1).drop_last() =~= m.take(i as int));
                    assert(m.take(i + 1).last() == m[i as int]);
                    let (key, value) = o.get_index(i);
                    let ghost keys_before = keys@;
                    let ghost fields_before = fields@;
                    keys.push(key.clone());
                    assert(keys@[i as int]@ == m[i as int].0);
                    assert(forall|k: int| 0 <= k < i ==> keys@[k] == keys_before[k]);
                    match value {
                        PqlValue::Array(a) => {
                            if n == 0 {
                                n = a.len();
                            }
                            fields.push(crate::value::copy_values(a));
                            assert(models(fields@[i as int]@) == cells(m[i as int].1));
                        },
                        _ => {
                            n = 1;
                            let mut col: Vec<PqlValue> = Vec::new();
                            col.push(value.copy());
                            assert(models(col@) =~= seq![value@]);
                            fields.push(col);
                            assert(models(fields@[i as int]@) == cells(m[i as int].1));
                        },
                    }
                    assert(forall|k: int| 0 <= k < i ==> fields@[k] == fields_before[k]);
                    i = i + 1;
                }
                assert(m.take(i as int) =~= m);
                FieldBook { target_keys: keys, target_fields: fields, column_size: n }
            },
            _ => FieldBook { target_keys: Vec::new(), target_fields: Vec::new(), column_size: 0 },
        }
    }

    /// The rows of the book (see `book_rows`).
    pub fn to_record(&self, Ghost(m): Ghost<ObjectModel>) -> (r: Records)
        requires
            self.is_book_of(m),
            keys_distinct(m),
            columns_long_enough(m),
        ensures
            r.wf(),
            records_model(r.0@) == book_rows(m),
    {
        let mut records: Vec<Vec<(String, Vec<PqlValue>)>> = Vec::new();
        let mut i: usize = 0;
        while i < self.column_size
            invariant
                i <= self.column_size,
                self.is_book_of(m),
                keys_distinct(m),
                columns_long_enough(m),
                records@.len() == i,
                forall|x: int| 0 <= x < i ==> #[trigger] record_model(records@[x]@) == book_rows(m)[x],
            decreases self.column_size - i,
        {
            let mut record: Vec<(String, Vec<PqlValue>)> = Vec::new();
            let mut k: usize = 0;
            while k < self.target_keys.len()
                invariant
                    k <= m.len(),
                    i < self.column_size,
                    self.is_book_of(m),
                    columns_long_enough(m),
                    record_model(record@) =~= Seq::new(
                        k as nat,
                        |q: int| (m[q].0, cells(cells(m[q].1)[i as int])),
                    ),
                decreases m.len() - k,
            {
                let col = &self.target_fields[k];
                assert(cells(m[k as int].1).len() >= column_size(m));
                assert(models(col@) == cells(m[k as int].1));
                let cell = &col[i];
                let cs: Vec<PqlValue> = match cell {
                    PqlValue::Array(a) => crate::value::copy_values(a),
                    _ => {
                        let mut one: Vec<PqlValue> = Vec::new();
                        one.push(cell.copy());
                        assert(models(one@) =~= seq![cell@]);
                        one
                    },
                };
                let ghost before = record_model(record@);
                record.push((self.target_keys[k].clone(), cs));
                assert(record_model(record@) =~= before.push(
                    (m[k as int].0, cells(cells(m[k as int].1)[i as int])),
                ));
                k = k + 1;
            }
            assert(record_model(record@) =~= book_rows(m)[i as int]);
            records.push(record);
            i = i + 1;
        }
        let r = Records(records);
        assert(records_model(r.0@) =~= book_rows(m));
        assert forall|x: int| 0 <= x < r.0@.len() implies record_keys_distinct(
            #[trigger] record_model(r.0@[x]@),
        ) by {
            assert(record_model(r.0@[x]@) == book_rows(m)[x]);
        }
        r
    }
}

/// Why a projection has no rows.
#[derive(Debug, Clone, Copy, PartialEq, Eq)]
pub enum ProjectError {
    /// A projection has neither an alias nor a path to name its column.
    MissingName,
    /// A projected expression has no value.
    Eval(EvalError),
    /// A column has fewer cells than there are rows.
    ShortColumn,
}

/// The names of the columns of the projections, if each has one.
pub open spec fn proj_names(ps: Seq<AliasedModel>) -> Option<Seq<Seq<char>>> {
    if forall|i: int| 0 <= i < ps.len() ==> #[trigger] target_name(ps[i]) is Some {
        Some(Seq::new(ps.len(), |i: int| target_name(ps[i])->Some_0))
    } else {
        None
    }
}

/// The values of the projected expressions in `m`, in order; the first
/// error stands.
pub open spec fn proj_values(ps: Seq<AliasedModel>, m: EnvModel) -> Result<Seq<ValueModel>, EvalError>
    decreases ps.len(),
{
    if ps.len() == 0 {
        Ok(Seq::empty())
    } else {
        match proj_values(ps.drop_last(), m) {
            Err(e) => Err(e),
            Ok(r) => match expr_eval(ps.last().0, m) {
                Ok(v) => Ok(r.push(v)),
                Err(e) => Err(e),
            },
        }
    }
}

/// The object that binds each name to its value, in order: a repeated
/// name keeps its first place and takes its last value.
pub open spec fn columns_object(names: Seq<Seq<char>>, values: Seq<ValueModel>) -> ObjectModel
    decreases names.len(),
{
    if names.len() == 0 || values.len() != names.len() {
        Seq::empty()
    } else {
        obj_insert(
            columns_object(names.drop_last(), values.drop_last()),
            names.last(),
            values.last(),
        )
    }
}

/// The rows that the projections `ps` give in `m`: the columns of the
/// projected values, by name, made into rows (see `book_rows`) and each row
/// into objects (see `record_objects`).
pub open spec fn projection_spec(ps: Seq<AliasedModel>, m: EnvModel) -> Result<
    Seq<ValueModel>,
    ProjectError,
> {
    match proj_names(ps) {
        None => Err(ProjectError::MissingName),
        Some(names) => match proj_values(ps, m) {
            Err(e) => Err(ProjectError::Eval(e)),
            Ok(values) => {
                let obj = columns_object(names, values);
                if columns_long_enough(obj) {
                    Ok(records_objects(book_rows(obj)))
                } else {
                    Err(ProjectError::ShortColumn)
                }
            },
        },
    }
}

proof fn lemma_columns_object_distinct(names: Seq<Seq<char>>, values: Seq<ValueModel>)
    ensures
        keys_distinct(columns_object(names, values)),
    decreases names.len(),
{
    if names.len() > 0 && values.len() == names.len() {
        lemma_columns_object_distinct(names.drop_last(), values.drop_last());
        lemma_insert_keeps_distinct(
            columns_object(names.drop_last(), values.drop_last()),
            names.last(),
            values.last(),
        );
    }
}

/// The projection of a `SELECT` clause.
pub struct Projection(pub Vec<Proj>);

/// The model of a list of projections.
pub open spec fn projection_model(p: Projection) -> Seq<AliasedModel> {
    projs_model(p.0@)
}

impl Projection {
    /// The rows of the projection in `env` (see `projection_spec`).
    #[verifier::loop_isolation(false)]
    pub fn execute(self, env: &Env) -> (r: Result<Vec<PqlValue>, ProjectError>)
        ensures
            match projection_spec(projection_model(self), env@) {
                Ok(rows) => r is Ok && models(r->Ok_0@) == rows,
                Err(e) => r == Err::<Vec<PqlValue>, ProjectError>(e),
            },
    {
        let ghost ps = projection_model(self);
        let projs = self.0;
        let mut names: Vec<String> = Vec::new();
        let mut i: usize = 0;
        while i < projs.len()
            invariant
                i <= projs@.len(),
                ps == projs_model(projs@),
                names@.len() == i,
                forall|k: int| 0 <= k < i ==> target_name(#[trigger] ps[k]) == Some(names@[k]@),
            decreases projs@.len() - i,
        {
            assert(ps[i as int] == (projs@[i as int].expr@, opt_str(projs@[i as int].alias)));
            match projs[i].try_target_field_name() {
                Some(n) => {
                    names.push(n);
                },
                None => {
                    assert(proj_names(ps) is None);
                    return Err(ProjectError::MissingName);
                },
            }
            i = i + 1;
        }
        let ghost nm = Seq::new(ps.len(), |k: int| target_name(ps[k])->Some_0);
        assert(proj_names(ps) == Some(nm));
        let mut obj = PqlObject::new();
        let mut j: usize = 0;
        let ghost values: Seq<ValueModel> = Seq::empty();
        assert(ps.take(0) =~= Seq::<AliasedModel>::empty());
        assert(nm.take(0) =~= Seq::<Seq<char>>::empty());
        assert(obj@ =~= columns_object(nm.take(0), values));
        while j < projs.len()
            invariant
                names@.len() == ps.len(),
                projs@.len() == ps.len(),
                nm.len() == ps.len(),
                forall|k: int| 0 <= k < ps.len() ==> (#[trigger] names@[k])@ == nm[k],
                j <= ps.len(),
                ps == projs_model(projs@),
                proj_values(ps.take(j as int), env@) == Ok::<Seq<ValueModel>, EvalError>(values),
                values.len() == j,
                obj@ == columns_object(nm.take(j as int), values),
            decreases ps.len() - j,
        {
            assert(ps[j as int] == (projs@[j as int].expr@, opt_str(projs@[j as int].alias)));
            assert(ps.take(j + 1).drop_last() =~= ps.take(j as int));
            assert(nm.take(j + 1).drop_last() =~= nm.take(j as int));
            assert(nm.take(j + 1).last() == nm[j as int]);
            let e = projs[j].expr.copy();
            match e.eval(env) {
                Ok(v) => {
                    let ghost old_values = values;
                    proof {
                        values = values.push(v@);
                        assert(values.drop_last() =~= old_values);
                    }
                    obj.insert(names[j].clone(), v);
                },
                Err(e) => {
                    proof {
                        lemma_proj_values_err(ps, env@, j + 1, e);
                    }
                    return Err(ProjectError::Eval(e));
                },
            }
            j = j + 1;
        }
        assert(ps.take(j as int) =~= ps);
        assert(nm.take(j as int) =~= nm);
        let ghost om = obj@;
        proof {
            use_type_invariant(&obj);
        }
        let book = FieldBook::from_value(PqlValue::Object(obj));
        let mut k: usize = 0;
        while k < book.target_fields.len()
            invariant
                k <= om.len(),
                book.is_book_of(om),
                forall|q: int| 0 <= q < k ==> cells(#[trigger] om[q].1).len() >= column_size(om),
            decreases om.len() - k,
        {
            if book.target_fields[k].len() < book.column_size {
                return Err(ProjectError::ShortColumn);
            }
            k = k + 1;
        }
        let records = book.to_record(Ghost(om));
        Ok(records.into_list())
    }
}

/// An error met at some projection stands for the whole list.
proof fn lemma_proj_values_err(ps: Seq<AliasedModel>, m: EnvModel, k: int, e: EvalError)
    requires
        0 <= k <= ps.len(),
        proj_values(ps.take(k), m) == Err::<Seq<ValueModel>, EvalError>(e),
    ensures
        proj_values(ps, m) == Err::<Seq<ValueModel>, EvalError>(e),
    decreases ps.len(),
{
    if k < ps.len() {
        assert(ps.drop_last().take(k) =~= ps.take(k));
        lemma_proj_values_err(ps.drop_last(), m, k, e);
    } else {
        assert(ps.take(k) =~= ps);
    }
}


/// The rows of an object of columns (see `book_rows` and
/// `records_objects`): `None` where a column is short. Anything but an
/// object has no columns and gives no rows.
pub open spec fn to_list_spec(v: ValueModel) -> Option<Seq<ValueModel>> {
    match v {
        ValueModel::Object(m) => if columns_long_enough(m) {
            Some(records_objects(book_rows(m)))
        } else {
            None
        },
        _ => Some(Seq::empty()),
    }
}

/// The rows of the columns of `value` (see `to_list_spec`).
#[verifier::loop_isolation(false)]
pub fn to_list(value: PqlValue) -> (r: Result<Vec<PqlValue>, ProjectError>)
    ensures
        match to_list_spec(value@) {
            Some(rows) => r is Ok && models(r->Ok_0@) == rows,
            None => r == Err::<Vec<PqlValue>, ProjectError>(ProjectError::ShortColumn),
        },
{
    let ghost vm = value@;
    let ghost om: ObjectModel = match vm {
        ValueModel::Object(m) => m,
        _ => Seq::empty(),
    };
    let is_object = match &value {
        PqlValue::Object(o) => {
            proof {
                use_type_invariant(o);
                assert(vm == ValueModel::Object(o@));
            }
            true
        },
        _ => false,
    };
    let book = FieldBook::from_value(value);
    if !is_object {
        let out: Vec<PqlValue> = Vec::new();
        assert(models(out@) =~= Seq::<ValueModel>::empty());
        return Ok(out);
    }
    let mut k: usize = 0;
    while k < book.target_fields.len()
        invariant
            k <= om.len(),
            book.is_book_of(om),
            forall|q: int| 0 <= q < k ==> cells(#[trigger] om[q].1).len() >= column_size(om),
        decreases om.len() - k,
    {
        if book.target_fields[k].len() < book.column_size {
            return Err(ProjectError::ShortColumn);
        }
        k = k + 1;
    }
    let records = book.to_record(Ghost(om));
    Ok(records.into_list())
}

} // verus!
