//! Consumers at the emission boundary: turning a committed output Z-set of
//! rows into row vectors, ordered query-output tables and their digest, in
//! the query-output format of SQL logic testing.

use vstd::prelude::*;
use core::cmp::Ordering;
use vstd::string::{StringExecFns, StringSliceAdditionalSpecFns};
use vstd::utf8::encode_utf8;

verus! {

/// One entry of a Z-set whose keys are rows: a row (one rendered string per
/// column) with its net weight.
pub struct RowEntry {
    pub cols: Vec<String>,
    pub weight: i64,
}

/// A Z-set of rows, as an operator's committed output batch hands it to a
/// consumer.
pub struct RowZSet {
    pub entries: Vec<RowEntry>,
}

/// One entry of a Z-set whose keys are whole row vectors (the shape an
/// order-by produces: all data inside a single key).
pub struct VecRowEntry {
    pub rows: Vec<Vec<String>>,
    pub weight: i64,
}

/// A Z-set of row vectors.
pub struct VecRowZSet {
    pub entries: Vec<VecRowEntry>,
}

/// The characters of a row, column by column.
pub open spec fn row_view(r: Vec<String>) -> Seq<Seq<char>> {
    r@.map_values(|s: String| s@)
}

/// The characters of a sequence of rows.
pub open spec fn rows_view(s: Seq<Vec<String>>) -> Seq<Seq<Seq<char>>> {
    s.map_values(|r: Vec<String>| row_view(r))
}

/// `n` copies of one row.
pub open spec fn row_copies(r: Seq<Seq<char>>, n: int) -> Seq<Seq<Seq<char>>> {
    Seq::new(if n >= 0 {
        n as nat
    } else {
        0
    }, |i: int| r)
}

/// The rows a Z-set of rows expands to: each entry repeated as many times
/// as its weight.
pub open spec fn expanded(s: Seq<RowEntry>) -> Seq<Seq<Seq<char>>>
    decreases s.len(),
{
    if s.len() == 0 {
        Seq::empty()
    } else {
        expanded(s.drop_last()) + row_copies(row_view(s.last().cols), s.last().weight as int)
    }
}

/// How often a row occurs in a sequence of rows.
pub open spec fn row_count(s: Seq<Seq<Seq<char>>>, r: Seq<Seq<char>>) -> int
    decreases s.len(),
{
    if s.len() == 0 {
        0
    } else {
        row_count(s.drop_last(), r) + if s.last() == r {
            1int
        } else {
            0int
        }
    }
}

/// Lexicographic order on byte sequences; `Equal` exactly when they match.
pub open spec fn bytes_cmp(a: Seq<u8>, b: Seq<u8>) -> Ordering
    decreases a.len(),
{
    if a.len() == 0 && b.len() == 0 {
        Ordering::Equal
    } else if a.len() == 0 {
        Ordering::Less
    } else if b.len() == 0 {
        Ordering::Greater
    } else if a[0] < b[0] {
        Ordering::Less
    } else if a[0] > b[0] {
        Ordering::Greater
    } else {
        bytes_cmp(a.drop_first(), b.drop_first())
    }
}

/// The order of two columns: their rendered text compared byte by byte.
pub open spec fn col_cmp(a: Seq<char>, b: Seq<char>) -> Ordering {
    bytes_cmp(encode_utf8(a), encode_utf8(b))
}

/// Lexicographic order on rows: column by column, then by length.
pub open spec fn row_cmp(a: Seq<Seq<char>>, b: Seq<Seq<char>>) -> Ordering
    decreases a.len(),
{
    if a.len() == 0 && b.len() == 0 {
        Ordering::Equal
    } else if a.len() == 0 {
        Ordering::Less
    } else if b.len() == 0 {
        Ordering::Greater
    } else if col_cmp(a[0], b[0]) != Ordering::Equal {
        col_cmp(a[0], b[0])
    } else {
        row_cmp(a.drop_first(), b.drop_first())
    }
}

pub open spec fn row_le(a: Seq<Seq<char>>, b: Seq<Seq<char>>) -> bool {
    row_cmp(a, b) != Ordering::Greater
}

pub open spec fn sorted_rows(s: Seq<Seq<Seq<char>>>) -> bool {
    forall|i: int, j: int| 0 <= i < j < s.len() ==> row_le(s[i], s[j])
}

proof fn lemma_bytes_cmp_equal(a: Seq<u8>, b: Seq<u8>)
    requires
        bytes_cmp(a, b) == Ordering::Equal,
    ensures
        a =~= b,
    decreases a.len(),
{
    if a.len() > 0 && b.len() > 0 {
        lemma_bytes_cmp_equal(a.drop_first(), b.drop_first());
        assert(a =~= seq![a[0]] + a.drop_first());
        assert(b =~= seq![b[0]] + b.drop_first());
    }
}

proof fn lemma_bytes_cmp_flip(a: Seq<u8>, b: Seq<u8>)
    ensures
        bytes_cmp(a, b) == Ordering::Less <==> bytes_cmp(b, a) == Ordering::Greater,
        bytes_cmp(a, b) == Ordering::Equal <==> bytes_cmp(b, a) == Ordering::Equal,
    decreases a.len(),
{
    if a.len() > 0 && b.len() > 0 {
        lemma_bytes_cmp_flip(a.drop_first(), b.drop_first());
    }
}

proof fn lemma_bytes_cmp_less_le(a: Seq<u8>, b: Seq<u8>, c: Seq<u8>)
    requires
        bytes_cmp(a, b) == Ordering::Less,
        bytes_cmp(b, c) != Ordering::Greater,
    ensures
        bytes_cmp(a, c) == Ordering::Less,
    decreases a.len(),
{
    if a.len() == 0 {
        // b is nonempty, hence so is c, hence a is below c
        assert(b.len() > 0);
        assert(c.len() > 0);
    } else {
        assert(b.len() > 0);
        assert(c.len() > 0);
        if a[0] == b[0] {
            if b[0] == c[0] {
                lemma_bytes_cmp_less_le(a.drop_first(), b.drop_first(), c.drop_first());
            }
        }
    }
}

proof fn lemma_row_cmp_flip(a: Seq<Seq<char>>, b: Seq<Seq<char>>)
    ensures
        row_cmp(a, b) == Ordering::Less <==> row_cmp(b, a) == Ordering::Greater,
        row_cmp(a, b) == Ordering::Equal <==> row_cmp(b, a) == Ordering::Equal,
    decreases a.len(),
{
    if a.len() > 0 && b.len() > 0 {
        lemma_bytes_cmp_flip(encode_utf8(a[0]), encode_utf8(b[0]));
        lemma_row_cmp_flip(a.drop_first(), b.drop_first());
    }
}

proof fn lemma_row_le_trans(a: Seq<Seq<char>>, b: Seq<Seq<char>>, c: Seq<Seq<char>>)
    requires
        row_le(a, b),
        row_le(b, c),
    ensures
        row_le(a, c),
    decreases a.len(),
{
    if a.len() == 0 {
    } else if b.len() == 0 {
        assert(row_cmp(a, b) == Ordering::Greater);
    } else if c.len() == 0 {
        assert(row_cmp(b, c) == Ordering::Greater);
    } else {
        let h1 = col_cmp(a[0], b[0]);
        let h2 = col_cmp(b[0], c[0]);
        assert(h1 != Ordering::Greater);
        assert(h2 != Ordering::Greater);
        if h1 == Ordering::Less {
            lemma_bytes_cmp_less_le(encode_utf8(a[0]), encode_utf8(b[0]), encode_utf8(c[0]));
        } else {
            lemma_bytes_cmp_equal(encode_utf8(a[0]), encode_utf8(b[0]));
            assert(col_cmp(a[0], c[0]) == h2);
            if h2 == Ordering::Equal {
                lemma_row_le_trans(a.drop_first(), b.drop_first(), c.drop_first());
            }
        }
    }
}

proof fn lemma_row_count_insert(s: Seq<Seq<Seq<char>>>, p: int, x: Seq<Seq<char>>, r: Seq<Seq<char>>)
    requires
        0 <= p <= s.len(),
    ensures
        row_count(s.insert(p, x), r) == row_count(s, r) + if x == r {
            1int
        } else {
            0int
        },
    decreases s.len(),
{
    let t = s.insert(p, x);
    if p == s.len() {
        assert(t =~= s.push(x));
        assert(t.drop_last() =~= s);
    } else {
        assert(t.last() == s.last());
        assert(t.drop_last() =~= s.drop_last().insert(p, x));
        lemma_row_count_insert(s.drop_last(), p, x, r);
    }
}

proof fn lemma_row_count_push(s: Seq<Seq<Seq<char>>>, x: Seq<Seq<char>>, r: Seq<Seq<char>>)
    ensures
        row_count(s.push(x), r) == row_count(s, r) + if x == r {
            1int
        } else {
            0int
        },
{
    assert(s.push(x).drop_last() =~= s);
}

/// Compares two rows in the lexicographic column order the sorted
/// query-output format asks for.
pub fn compare(left: &Vec<String>, right: &Vec<String>) -> (o: Ordering)
    ensures
        o == row_cmp(row_view(*left), row_view(*right)),
{
    let llen = left.len();
    let rlen = right.len();
    let min = if llen < rlen {
        llen
    } else {
        rlen
    };
    let ghost lv = row_view(*left);
    let ghost rv = row_view(*right);
    proof {
        assert(lv.skip(0) =~= lv);
        assert(rv.skip(0) =~= rv);
    }
    for i in 0..min
        invariant
            lv == row_view(*left),
            rv == row_view(*right),
            llen == lv.len(),
            rlen == rv.len(),
            min <= lv.len(),
            min <= rv.len(),
            min == if lv.len() < rv.len() {
                lv.len()
            } else {
                rv.len()
            },
            row_cmp(lv, rv) == row_cmp(lv.skip(i as int), rv.skip(i as int)),
    {
        let cmp = str_cmp(left[i].as_str(), right[i].as_str());
        proof {
            assert(lv[i as int] == left@[i as int]@);
            assert(rv[i as int] == right@[i as int]@);
            assert(lv.skip(i as int)[0] == lv[i as int]);
            assert(rv.skip(i as int)[0] == rv[i as int]);
            assert(lv.skip(i as int).drop_first() =~= lv.skip(i + 1));
            assert(rv.skip(i as int).drop_first() =~= rv.skip(i + 1));
        }
        match cmp {
            Ordering::Equal => {
                proof {
                    lemma_row_cmp_skip_one(lv.skip(i as int), rv.skip(i as int));
                }
            },
            _ => {
                proof {
                    assert(col_cmp(lv.skip(i as int)[0], rv.skip(i as int)[0]) == cmp);
                    assert(row_cmp(lv.skip(i as int), rv.skip(i as int)) == cmp);
                }
                return cmp;
            },
        }
    }
    proof {
        assert(lv.skip(min as int).len() == llen - min);
        assert(rv.skip(min as int).len() == rlen - min);
    }
    if llen < rlen {
        Ordering::Less
    } else if llen > rlen {
        Ordering::Greater
    } else {
        Ordering::Equal
    }
}

proof fn lemma_row_cmp_skip_one(a: Seq<Seq<char>>, b: Seq<Seq<char>>)
    requires
        a.len() > 0,
        b.len() > 0,
        col_cmp(a[0], b[0]) == Ordering::Equal,
    ensures
        row_cmp(a, b) == row_cmp(a.drop_first(), b.drop_first()),
{
}

/// Compares the rendered text of two columns byte by byte.
fn str_cmp(a: &str, b: &str) -> (o: Ordering)
    ensures
        o == bytes_cmp(a.spec_bytes(), b.spec_bytes()),
{
    let ab = a.as_bytes();
    let bb = b.as_bytes();
    let alen = ab.len();
    let blen = bb.len();
    let min = if alen < blen {
        alen
    } else {
        blen
    };
    proof {
        assert(ab@.skip(0) =~= ab@);
        assert(bb@.skip(0) =~= bb@);
    }
    for i in 0..min
        invariant
            ab@ == a.spec_bytes(),
            bb@ == b.spec_bytes(),
            alen == ab@.len(),
            blen == bb@.len(),
            min == if alen < blen {
                alen
            } else {
                blen
            },
            min <= alen,
            min <= blen,
            forall|j: int| 0 <= j < i ==> ab@[j] == bb@[j],
            bytes_cmp(ab@, bb@) == bytes_cmp(ab@.skip(i as int), bb@.skip(i as int)),
    {
        let x = ab[i];
        let y = bb[i];
        proof {
            assert(ab@.skip(i as int)[0] == ab@[i as int]);
            assert(bb@.skip(i as int)[0] == bb@[i as int]);
            assert(ab@.skip(i as int).drop_first() =~= ab@.skip(i + 1));
            assert(bb@.skip(i as int).drop_first() =~= bb@.skip(i + 1));
        }
        if x < y {
            return Ordering::Less;
        } else if x > y {
            return Ordering::Greater;
        }
    }
    proof {
        assert(ab@.skip(min as int).len() == alen - min);
        assert(bb@.skip(min as int).len() == blen - min);
    }
    if alen < blen {
        Ordering::Less
    } else if alen > blen {
        Ordering::Greater
    } else {
        Ordering::Equal
    }
}


/// How the query-output format orders the emitted rows.
#[allow(non_camel_case_types)]
#[derive(PartialEq, Eq, Structural, Clone, Copy, Debug)]
pub enum SortOrder {
    NONE,
    ROW,
    VALUE,
}

/// Each column of a row as a single-column row of its own, for the
/// value-sorted output mode.
pub open spec fn exploded(r: Seq<Seq<char>>) -> Seq<Seq<Seq<char>>> {
    Seq::new(r.len(), |i: int| seq![r[i]])
}

/// The row sequence an output table is built from: rows as they come, or
/// every column as a row of its own in the value-sorted mode.
pub open spec fn arranged(rs: Seq<Seq<Seq<char>>>, order: SortOrder) -> Seq<Seq<Seq<char>>>
    decreases rs.len(),
{
    if rs.len() == 0 {
        Seq::empty()
    } else {
        arranged(rs.drop_last(), order) + if order == SortOrder::VALUE {
            exploded(rs.last())
        } else {
            seq![rs.last()]
        }
    }
}

fn clone_row(r: &Vec<String>) -> (c: Vec<String>)
    ensures
        row_view(c) == row_view(*r),
{
    let mut out: Vec<String> = Vec::new();
    let n = r.len();
    for i in 0..n
        invariant
            n == r@.len(),
            out@.len() == i,
            forall|j: int| 0 <= j < i ==> out@[j]@ == r@[j]@,
    {
        out.push(r[i].clone());
    }
    proof {
        assert(row_view(out) =~= row_view(*r));
    }
    out
}

/// Expands a Z-set of rows to one row vector per counted occurrence:
/// an entry with weight w contributes w copies of its row.  Negative
/// weights signal a broken invariant of the producing circuit and are
/// ruled out.
pub fn zset_to_rows(set: &RowZSet) -> (r: Vec<Vec<String>>)
    requires
        forall|i: int| 0 <= i < set.entries@.len() ==> #[trigger] set.entries@[i].weight >= 0,
    ensures
        rows_view(r@) == expanded(set.entries@),
{
    let mut out: Vec<Vec<String>> = Vec::new();
    let n = set.entries.len();
    for i in 0..n
        invariant
            n == set.entries@.len(),
            forall|m: int| 0 <= m < set.entries@.len() ==> #[trigger] set.entries@[m].weight >= 0,
            rows_view(out@) =~= expanded(set.entries@.take(i as int)),
    {
        let e = &set.entries[i];
        let w = e.weight;
        let ghost rv = row_view(e.cols);
        let mut c: i64 = 0;
        while c < w
            invariant
                0 <= c <= w,
                rv == row_view(set.entries@[i as int].cols),
                w == set.entries@[i as int].weight,
                i < set.entries@.len(),
                rows_view(out@) =~= expanded(set.entries@.take(i as int)) + row_copies(rv, c as int),
            decreases w - c,
        {
            let ghost out0 = out@;
            out.push(clone_row(&set.entries[i].cols));
            c = c + 1;
            proof {
                assert(rows_view(out@) =~~= rows_view(out0).push(rv));
                assert(row_copies(rv, c as int) =~= row_copies(rv, c - 1).push(rv));
                assert(rows_view(out@) =~= expanded(set.entries@.take(i as int)) + row_copies(
                    rv,
                    c as int,
                ));
            }
        }
        proof {
            assert(set.entries@.take(i + 1).drop_last() =~= set.entries@.take(i as int));
            assert(set.entries@.take(i + 1).last() == set.entries@[i as int]);
            assert(rows_view(out@) =~= expanded(set.entries@.take(i + 1)));
        }
    }
    proof {
        assert(set.entries@.take(n as int) =~= set.entries@);
        assert(rows_view(out@) =~= expanded(set.entries@));
    }
    out
}

/// Collects the rows of one step's output table and hands them out in the
/// configured order.
pub struct DataRows {
    rows: Vec<Vec<String>>,
    order: SortOrder,
}

impl DataRows {
    pub closed spec fn rows_spec(&self) -> Seq<Seq<Seq<char>>> {
        rows_view(self.rows@)
    }

    pub closed spec fn order_spec(&self) -> SortOrder {
        self.order
    }

    pub fn new(order: SortOrder) -> (r: DataRows)
        ensures
            r.rows_spec() =~= Seq::<Seq<Seq<char>>>::empty(),
            r.order_spec() == order,
    {
        DataRows { rows: Vec::new(), order }
    }

    pub fn with_capacity(order: SortOrder, capacity: usize) -> (r: DataRows)
        ensures
            r.rows_spec() =~= Seq::<Seq<Seq<char>>>::empty(),
            r.order_spec() == order,
    {
        DataRows { rows: Vec::with_capacity(capacity), order }
    }

    /// Takes one row in: as a whole row, or column by column in the
    /// value-sorted mode.
    pub fn push(&mut self, sql_row: Vec<String>)
        ensures
            final(self).order_spec() == old(self).order_spec(),
            old(self).order_spec() != SortOrder::VALUE ==> final(self).rows_spec()
                =~= old(self).rows_spec().push(row_view(sql_row)),
            old(self).order_spec() == SortOrder::VALUE ==> final(self).rows_spec()
                =~= old(self).rows_spec() + exploded(row_view(sql_row)),
    {
        if matches!(self.order, SortOrder::VALUE) {
            let ghost base = rows_view(self.rows@);
            let ghost rv = row_view(sql_row);
            let n = sql_row.len();
            for j in 0..n
                invariant
                    n == sql_row@.len(),
                    rv == row_view(sql_row),
                    rows_view(self.rows@) =~= base + exploded(rv).take(j as int),
                    self.order == SortOrder::VALUE,
            {
                let ghost rows0 = self.rows@;
                let mut one: Vec<String> = Vec::new();
                one.push(sql_row[j].clone());
                self.rows.push(one);
                proof {
                    assert(rows_view(self.rows@) =~~= rows_view(rows0).push(seq![rv[j as int]]));
                    assert(exploded(rv).take(j + 1) =~= exploded(rv).take(j as int).push(
                        seq![rv[j as int]],
                    ));
                }
            }
            proof {
                assert(exploded(rv).take(n as int) =~= exploded(rv));
            }
        } else {
            let ghost rows0 = self.rows@;
            self.rows.push(sql_row);
            proof {
                assert(rows_view(self.rows@) =~= rows_view(rows0).push(row_view(sql_row)));
            }
        }
    }

    /// Hands the collected table out: untouched in the unordered mode, and
    /// sorted by the lexicographic row order otherwise, with every row kept
    /// exactly as often as it was pushed.
    pub fn get(self) -> (r: Vec<Vec<String>>)
        ensures
            self.order_spec() == SortOrder::NONE ==> rows_view(r@) == self.rows_spec(),
            self.order_spec() != SortOrder::NONE ==> sorted_rows(rows_view(r@)) && (forall|
                x: Seq<Seq<char>>,
            |
                #[trigger] row_count(rows_view(r@), x) == row_count(self.rows_spec(), x)),
    {
        let DataRows { rows, order } = self;
        if matches!(order, SortOrder::NONE) {
            return rows;
        }
        let mut out: Vec<Vec<String>> = Vec::new();
        let n = rows.len();
        for i in 0..n
            invariant
                n == rows@.len(),
                sorted_rows(rows_view(out@)),
                forall|x: Seq<Seq<char>>|
                    #[trigger] row_count(rows_view(out@), x) == row_count(
                        rows_view(rows@.take(i as int)),
                        x,
                    ),
        {
            let x = clone_row(&rows[i]);
            let ghost xv = row_view(rows@[i as int]);
            let mut p: usize = 0;
            loop
                invariant
                    p <= out@.len(),
                    row_view(x) == xv,
                    sorted_rows(rows_view(out@)),
                    forall|m: int|
                        0 <= m < p ==> row_cmp(#[trigger] rows_view(out@)[m], xv)
                            == Ordering::Less,
                ensures
                    p <= out@.len(),
                    forall|m: int|
                        0 <= m < p ==> row_cmp(#[trigger] rows_view(out@)[m], xv)
                            == Ordering::Less,
                    p < out@.len() ==> row_cmp(rows_view(out@)[p as int], xv) != Ordering::Less,
                    p == out@.len() || row_cmp(rows_view(out@)[p as int], xv) != Ordering::Less,
                decreases out@.len() - p,
            {
                if p >= out.len() {
                    break;
                }
                let c = compare(&out[p], &x);
                proof {
                    assert(row_view(out@[p as int]) == rows_view(out@)[p as int]);
                }
                match c {
                    Ordering::Less => {
                        p = p + 1;
                    },
                    _ => {
                        break;
                    },
                }
            }
            let ghost out0 = out@;
            out.insert(p, x);
            proof {
                assert(rows_view(out@) =~= rows_view(out0).insert(p as int, xv));
                let nv = rows_view(out@);
                let ov = rows_view(out0);
                assert forall|a: int, b: int| 0 <= a < b < nv.len() implies row_le(
                    nv[a],
                    nv[b],
                ) by {
                    let pa = if a < p { a } else { a - 1 };
                    let pb = if b < p { b } else { b - 1 };
                    if a == p {
                        // new row against a later old row
                        assert(row_cmp(ov[p as int], xv) != Ordering::Less);
                        lemma_row_cmp_flip(ov[p as int], xv);
                        assert(row_le(xv, ov[p as int]));
                        if pb > p {
                            assert(row_le(ov[p as int], ov[pb]));
                            lemma_row_le_trans(xv, ov[p as int], ov[pb]);
                        }
                    } else if b == p {
                        // an earlier old row against the new row
                        assert(row_cmp(ov[pa], xv) == Ordering::Less);
                    } else {
                        assert(nv[a] == ov[pa] && nv[b] == ov[pb]);
                    }
                }
                assert forall|x2: Seq<Seq<char>>|
                    #[trigger] row_count(rows_view(out@), x2) == row_count(
                        rows_view(rows@.take(i + 1)),
                        x2,
                    ) by {
                    lemma_row_count_insert(ov, p as int, xv, x2);
                    assert(rows_view(rows@.take(i + 1)) =~= rows_view(rows@.take(i as int)).push(
                        xv,
                    ));
                    lemma_row_count_push(rows_view(rows@.take(i as int)), xv, x2);
                }
            }
        }
        proof {
            assert(rows_view(rows@.take(n as int)) =~= rows_view(rows@));
        }
        out
    }
}

/// Builds the output table of one Z-set of rows: the expanded rows,
/// arranged for the configured mode and sorted unless the mode is
/// unordered.
pub fn zset_to_strings(set: &RowZSet, order: SortOrder) -> (r: Vec<Vec<String>>)
    requires
        forall|i: int| 0 <= i < set.entries@.len() ==> #[trigger] set.entries@[i].weight >= 0,
    ensures
        order == SortOrder::NONE ==> rows_view(r@) == arranged(expanded(set.entries@), order),
        order != SortOrder::NONE ==> sorted_rows(rows_view(r@)) && (forall|x: Seq<Seq<char>>|
            #[trigger] row_count(rows_view(r@), x) == row_count(
                arranged(expanded(set.entries@), order),
                x,
            )),
{
    let rows = zset_to_rows(set);
    let ghost tv = rows_view(rows@);
    let n = rows.len();
    let mut data_rows = DataRows::with_capacity(order, n);
    for i in 0..n
        invariant
            n == rows@.len(),
            tv == rows_view(rows@),
            tv == expanded(set.entries@),
            data_rows.order_spec() == order,
            data_rows.rows_spec() =~= arranged(tv.take(i as int), order),
    {
        let row = clone_row(&rows[i]);
        data_rows.push(row);
        proof {
            assert(tv.take(i + 1).drop_last() =~= tv.take(i as int));
            assert(tv.take(i + 1).last() == tv[i as int]);
            assert(row_view(row) == tv[i as int]);
        }
    }
    proof {
        assert(tv.take(n as int) =~= tv);
    }
    data_rows.get()
}

/// All rows of a Z-set of row vectors, in entry order.
pub open spec fn vec_rows(s: Seq<VecRowEntry>) -> Seq<Seq<Seq<char>>>
    decreases s.len(),
{
    if s.len() == 0 {
        Seq::empty()
    } else {
        vec_rows(s.drop_last()) + rows_view(s.last().rows@)
    }
}

/// Builds the output table of a Z-set of row vectors, the shape an order-by
/// produces: every entry must carry weight one, and all rows of all entries
/// are arranged and sorted as one table.
pub fn zset_of_vectors_to_strings(set: &VecRowZSet, order: SortOrder) -> (r: Vec<Vec<String>>)
    requires
        forall|i: int| 0 <= i < set.entries@.len() ==> #[trigger] set.entries@[i].weight == 1,
    ensures
        order == SortOrder::NONE ==> rows_view(r@) == arranged(vec_rows(set.entries@), order),
        order != SortOrder::NONE ==> sorted_rows(rows_view(r@)) && (forall|x: Seq<Seq<char>>|
            #[trigger] row_count(rows_view(r@), x) == row_count(
                arranged(vec_rows(set.entries@), order),
                x,
            )),
{
    let mut data_rows = DataRows::new(order);
    let n = set.entries.len();
    for i in 0..n
        invariant
            n == set.entries@.len(),
            data_rows.order_spec() == order,
            data_rows.rows_spec() =~= arranged(vec_rows(set.entries@.take(i as int)), order),
    {
        let m = set.entries[i].rows.len();
        for j in 0..m
            invariant
                i < set.entries@.len(),
                m == set.entries@[i as int].rows@.len(),
                data_rows.order_spec() == order,
                data_rows.rows_spec() =~= arranged(
                    vec_rows(set.entries@.take(i as int)) + rows_view(
                        set.entries@[i as int].rows@.take(j as int),
                    ),
                    order,
                ),
        {
            let row = clone_row(&set.entries[i].rows[j]);
            data_rows.push(row);
            proof {
                let base = vec_rows(set.entries@.take(i as int));
                let part0 = rows_view(set.entries@[i as int].rows@.take(j as int));
                let part1 = rows_view(set.entries@[i as int].rows@.take(j + 1));
                assert(part1 =~= part0.push(row_view(set.entries@[i as int].rows@[j as int])));
                assert((base + part1) =~= (base + part0).push(
                    row_view(set.entries@[i as int].rows@[j as int]),
                ));
                assert((base + part1).drop_last() =~= base + part0);
                assert(row_view(row) == row_view(set.entries@[i as int].rows@[j as int]));
            }
        }
        proof {
            assert(set.entries@[i as int].rows@.take(m as int) =~= set.entries@[i as int].rows@);
            assert(set.entries@.take(i + 1).drop_last() =~= set.entries@.take(i as int));
            assert(set.entries@.take(i + 1).last() == set.entries@[i as int]);
            assert(vec_rows(set.entries@.take(i + 1)) =~= vec_rows(set.entries@.take(i as int))
                + rows_view(set.entries@[i as int].rows@));
        }
    }
    proof {
        assert(set.entries@.take(n as int) =~= set.entries@);
    }
    data_rows.get()
}

/// The number of counted elements in a Z-set of row vectors: the length of
/// each entry's vector times its weight, summed over all entries.
pub open spec fn weighted_count_of(s: Seq<VecRowEntry>) -> int
    decreases s.len(),
{
    if s.len() == 0 {
        0
    } else {
        weighted_count_of(s.drop_last()) + s.last().rows@.len() * s.last().weight
    }
}

/// Counts the elements of a Z-set of row vectors: the direct sum of
/// (element count times weight) over all entries, negative weights
/// included.  The caller guarantees the products and running sums stay
/// within the weight type.
pub fn weighted_vector_count(set: &VecRowZSet) -> (c: i64)
    requires
        forall|i: int|
            0 <= i < set.entries@.len() ==> (#[trigger] set.entries@[i]).rows@.len()
                <= i64::MAX,
        forall|i: int|
            0 <= i < set.entries@.len() ==> i64::MIN <= (#[trigger] set.entries@[i]).rows@.len()
                * set.entries@[i].weight <= i64::MAX,
        forall|n: int|
            0 <= n <= set.entries@.len() ==> i64::MIN <= #[trigger] weighted_count_of(
                set.entries@.take(n),
            ) <= i64::MAX,
    ensures
        c as int == weighted_count_of(set.entries@),
{
    let mut c: i64 = 0;
    let n = set.entries.len();
    for i in 0..n
        invariant
            n == set.entries@.len(),
            forall|m: int|
                0 <= m < set.entries@.len() ==> (#[trigger] set.entries@[m]).rows@.len()
                    <= i64::MAX,
            forall|m: int|
                0 <= m < set.entries@.len() ==> i64::MIN <= (
                #[trigger] set.entries@[m]).rows@.len() * set.entries@[m].weight <= i64::MAX,
            forall|m: int|
                0 <= m <= set.entries@.len() ==> i64::MIN <= #[trigger] weighted_count_of(
                    set.entries@.take(m),
                ) <= i64::MAX,
            c as int == weighted_count_of(set.entries@.take(i as int)),
    {
        let len = set.entries[i].rows.len() as i64;
        let w = set.entries[i].weight;
        proof {
            assert(set.entries@.take(i + 1).drop_last() =~= set.entries@.take(i as int));
            assert(set.entries@.take(i + 1).last() == set.entries@[i as int]);
            assert(i64::MIN <= weighted_count_of(set.entries@.take(i + 1)) <= i64::MAX);
            assert(i64::MIN <= set.entries@[i as int].rows@.len() * set.entries@[i as int].weight
                <= i64::MAX);
        }
        let p = len * w;
        c = c + p;
    }
    proof {
        assert(set.entries@.take(n as int) =~= set.entries@);
    }
    c
}

/// The digest of the rendered output: what the result of one md5 run over a
/// byte sequence reads as lowercase hexadecimal text.
pub uninterp spec fn md5_hex_of(data: Seq<u8>) -> Seq<char>;

/// Relies on md5::compute (the RFC 1321 digest) and the md5 crate's
/// lowercase-hex formatting of a digest: the result depends on the input
/// bytes alone, two hex characters for each of the sixteen digest bytes.
#[verifier::external_body]
fn md5_hex(s: &str) -> (r: String)
    ensures
        r@ == md5_hex_of(s.spec_bytes()),
        r@.len() == 32,
{
    format!("{:x}", md5::compute(s.as_bytes()))
}

pub open spec fn newline() -> Seq<char> {
    seq!['\n']
}

/// One row of the digest text: every column followed by a line break.
pub open spec fn joined_row(r: Seq<Seq<char>>) -> Seq<char>
    decreases r.len(),
{
    if r.len() == 0 {
        Seq::empty()
    } else {
        joined_row(r.drop_last()) + r.last() + newline()
    }
}

/// The digest text of a whole table, row after row.
pub open spec fn joined_rows(rs: Seq<Seq<Seq<char>>>) -> Seq<char>
    decreases rs.len(),
{
    if rs.len() == 0 {
        Seq::empty()
    } else {
        joined_rows(rs.drop_last()) + joined_row(rs.last())
    }
}

/// Renders a table into the digest text, appending to the builder.
fn append_rows(builder: &mut String, table: &Vec<Vec<String>>)
    ensures
        final(builder)@ == old(builder)@ + joined_rows(rows_view(table@)),
{
    let n = table.len();
    proof {
        assert(rows_view(table@).take(0) =~= Seq::<Seq<Seq<char>>>::empty());
        assert(old(builder)@ + joined_rows(rows_view(table@).take(0)) =~= old(builder)@);
    }
    for i in 0..n
        invariant
            n == table@.len(),
            builder@ == old(builder)@ + joined_rows(rows_view(table@).take(i as int)),
    {
        let m = table[i].len();
        proof {
            assert(row_view(table@[i as int]).take(0) =~= Seq::<Seq<char>>::empty());
            assert(builder@ + joined_row(row_view(table@[i as int]).take(0)) =~= builder@);
        }
        let ghost mid = builder@;
        for j in 0..m
            invariant
                i < table@.len(),
                m == table@[i as int]@.len(),
                builder@ == mid + joined_row(row_view(table@[i as int]).take(j as int)),
    {
            builder.append(table[i][j].as_str());
            builder.append("\n");
            proof {
                reveal_strlit("\n");
                assert("\n"@ =~= newline());
                let rv = row_view(table@[i as int]);
                assert(rv.take(j + 1).drop_last() =~= rv.take(j as int));
                assert(rv.take(j + 1).last() == rv[j as int]);
                assert(rv[j as int] == table@[i as int]@[j as int]@);
                assert(builder@ =~= mid + joined_row(rv.take(j + 1)));
            }
        }
        proof {
            let rv = row_view(table@[i as int]);
            assert(rv.take(m as int) =~= rv);
            assert(rows_view(table@).take(i + 1).drop_last() =~= rows_view(table@).take(i as int));
            assert(rows_view(table@).take(i + 1).last() == rv);
            assert(builder@ =~= old(builder)@ + joined_rows(rows_view(table@).take(i + 1)));
        }
    }
    proof {
        assert(rows_view(table@).take(n as int) =~= rows_view(table@));
    }
}

/// What a correct table for one Z-set of rows looks like: exactly the
/// arranged rows when unordered, else any sorted table carrying each row as
/// often as the arranged rows do.
pub open spec fn table_of(entries: Seq<RowEntry>, order: SortOrder, rs: Seq<Seq<Seq<char>>>) -> bool {
    if order == SortOrder::NONE {
        rs == arranged(expanded(entries), order)
    } else {
        sorted_rows(rs) && (forall|x: Seq<Seq<char>>|
            #[trigger] row_count(rs, x) == row_count(arranged(expanded(entries), order), x))
    }
}

/// The digest of a Z-set's output table: the md5 of the table's rendered
/// text, every column on a line of its own.  The table the digest is taken
/// over is pinned by `table_of`: sortedness and row counts determine it
/// uniquely.
pub fn hash(set: &RowZSet, order: SortOrder) -> (r: String)
    requires
        forall|i: int| 0 <= i < set.entries@.len() ==> #[trigger] set.entries@[i].weight >= 0,
    ensures
        r@.len() == 32,
        (exists|rs: Seq<Seq<Seq<char>>>|
            #[trigger] table_of(set.entries@, order, rs) && r@ == md5_hex_of(
                encode_utf8(joined_rows(rs)),
            )),
{
    let table = zset_to_strings(set, order);
    let mut builder = String::new();
    append_rows(&mut builder, &table);
    let r = md5_hex(builder.as_str());
    proof {
        let rs = rows_view(table@);
        assert(table_of(set.entries@, order, rs));
        assert(builder@ =~= joined_rows(rs));
        assert(table_of(set.entries@, order, rs) && r@ == md5_hex_of(
            encode_utf8(joined_rows(rs)),
        ));
    }
    r
}

/// What a correct block for one row-vector entry looks like.
pub open spec fn block_of(e: VecRowEntry, order: SortOrder, rs: Seq<Seq<Seq<char>>>) -> bool {
    if order == SortOrder::NONE {
        rs == arranged(rows_view(e.rows@), order)
    } else {
        sorted_rows(rs) && (forall|x: Seq<Seq<char>>|
            #[trigger] row_count(rs, x) == row_count(arranged(rows_view(e.rows@), order), x))
    }
}

/// The digest text of a sequence of per-entry blocks.
pub open spec fn joined_blocks(bss: Seq<Seq<Seq<Seq<char>>>>) -> Seq<char>
    decreases bss.len(),
{
    if bss.len() == 0 {
        Seq::empty()
    } else {
        joined_blocks(bss.drop_last()) + joined_rows(bss.last())
    }
}

/// The digest of a Z-set of row vectors: each entry's rows are arranged and
/// sorted as their own block, the blocks are rendered in entry order, and
/// the md5 is taken over the whole text.  Every entry must carry weight
/// one.
pub fn hash_vectors(set: &VecRowZSet, order: SortOrder) -> (r: String)
    requires
        forall|i: int| 0 <= i < set.entries@.len() ==> #[trigger] set.entries@[i].weight == 1,
    ensures
        r@.len() == 32,
        (exists|bss: Seq<Seq<Seq<Seq<char>>>>|
            bss.len() == set.entries@.len() && (forall|i: int|
                0 <= i < bss.len() ==> #[trigger] block_of(set.entries@[i], order, bss[i]))
                && r@ == md5_hex_of(encode_utf8(#[trigger] joined_blocks(bss)))),
{
    let mut builder = String::new();
    let ghost mut bss: Seq<Seq<Seq<Seq<char>>>> = Seq::empty();
    let n = set.entries.len();
    for i in 0..n
        invariant
            n == set.entries@.len(),
            bss.len() == i as int,
            forall|m: int| 0 <= m < i ==> #[trigger] block_of(set.entries@[m], order, bss[m]),
            builder@ == joined_blocks(bss),
    {
        let m = set.entries[i].rows.len();
        let mut data_rows = DataRows::with_capacity(order, m);
        for j in 0..m
            invariant
                i < set.entries@.len(),
                m == set.entries@[i as int].rows@.len(),
                data_rows.order_spec() == order,
                data_rows.rows_spec() =~= arranged(
                    rows_view(set.entries@[i as int].rows@.take(j as int)),
                    order,
                ),
        {
            let row = clone_row(&set.entries[i].rows[j]);
            data_rows.push(row);
            proof {
                let part0 = rows_view(set.entries@[i as int].rows@.take(j as int));
                let part1 = rows_view(set.entries@[i as int].rows@.take(j + 1));
                assert(part1 =~= part0.push(row_view(set.entries@[i as int].rows@[j as int])));
                assert(part1.drop_last() =~= part0);
                assert(row_view(row) == row_view(set.entries@[i as int].rows@[j as int]));
            }
        }
        proof {
            assert(set.entries@[i as int].rows@.take(m as int) =~= set.entries@[i as int].rows@);
        }
        let block = data_rows.get();
        append_rows(&mut builder, &block);
        proof {
            let bv = rows_view(block@);
            assert(block_of(set.entries@[i as int], order, bv));
            let bss0 = bss;
            bss = bss.push(bv);
            assert(bss.drop_last() =~= bss0);
            assert(bss.last() == bv);
            assert(builder@ =~= joined_blocks(bss));
        }
    }
    let r = md5_hex(builder.as_str());
    proof {
        assert(bss.len() == set.entries@.len() && (forall|i: int|
            0 <= i < bss.len() ==> #[trigger] block_of(set.entries@[i], order, bss[i])) && r@
            == md5_hex_of(encode_utf8(joined_blocks(bss))));
    }
    r
}

} // verus!
