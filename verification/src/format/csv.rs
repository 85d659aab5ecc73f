//! CSV output: a `Department,Province,District` header row, then one row per
//! (department, province, district) leaf in canonical order.  Fields holding
//! a comma, quote or line break are double-quoted, embedded quotes doubled.

use vstd::prelude::*;
use crate::format::formatter::Formatter;
use crate::text::{chars_of, string_from_chars, append_chars, concat_texts};
use crate::ubigeo::{UbigeoMap, MapV};

verus! {

pub open spec fn needs_quote(f: Seq<char>) -> bool {
    exists|i: int|
        0 <= i < f.len() && (f[i] == ',' || f[i] == '"' || f[i] == '\n' || f[i] == '\r')
}

pub open spec fn doubled_quotes(f: Seq<char>) -> Seq<char>
    decreases f.len(),
{
    if f.len() == 0 {
        Seq::empty()
    } else {
        doubled_quotes(f.drop_last()) + (if f.last() == '"' {
            seq!['"', '"']
        } else {
            seq![f.last()]
        })
    }
}

/// A field as it stands in the output: quoted only when it needs to be.
pub open spec fn csv_field(f: Seq<char>) -> Seq<char> {
    if needs_quote(f) {
        seq!['"'] + doubled_quotes(f) + seq!['"']
    } else {
        f
    }
}

pub open spec fn csv_row(d: Seq<char>, p: Seq<char>, t: Seq<char>) -> Seq<char> {
    csv_field(d) + seq![','] + csv_field(p) + seq![','] + csv_field(t) + seq!['\n']
}

pub open spec fn csv_dists(d: Seq<char>, p: Seq<char>, ds: Seq<Seq<char>>) -> Seq<char>
    decreases ds.len(),
{
    if ds.len() == 0 {
        Seq::empty()
    } else {
        csv_dists(d, p, ds.drop_last()) + csv_row(d, p, ds.last())
    }
}

pub open spec fn csv_provs(d: Seq<char>, ps: Seq<(Seq<char>, Seq<Seq<char>>)>) -> Seq<char>
    decreases ps.len(),
{
    if ps.len() == 0 {
        Seq::empty()
    } else {
        csv_provs(d, ps.drop_last()) + csv_dists(d, ps.last().0, ps.last().1)
    }
}

pub open spec fn csv_depts(m: MapV) -> Seq<char>
    decreases m.len(),
{
    if m.len() == 0 {
        Seq::empty()
    } else {
        csv_depts(m.drop_last()) + csv_provs(m.last().0, m.last().1)
    }
}

/// The whole CSV output.
pub open spec fn csv_text(m: MapV) -> Seq<char> {
    "Department,Province,District"@ + seq!['\n'] + csv_depts(m)
}

/// Writes one field, quoting it when it holds a delimiter, quote or line
/// break.
fn write_field(out: &mut Vec<char>, f: &Vec<char>)
    ensures
        final(out)@ == old(out)@ + csv_field(f@),
{
    let mut q = false;
    let mut i: usize = 0;
    while i < f.len()
        invariant
            i <= f@.len(),
            q == exists|k: int|
                0 <= k < i && (f@[k] == ',' || f@[k] == '"' || f@[k] == '\n' || f@[k] == '\r'),
        decreases f@.len() - i,
    {
        let c = f[i];
        if c == ',' || c == '"' || c == '\n' || c == '\r' {
            q = true;
        }
        i = i + 1;
    }
    if !q {
        append_chars(out, f);
        return ;
    }
    let ghost pre = out@;
    out.push('"');
    let mut j: usize = 0;
    proof {
        assert(out@ =~= pre + seq!['"'] + doubled_quotes(f@.take(0)));
    }
    while j < f.len()
        invariant
            j <= f@.len(),
            out@ == pre + seq!['"'] + doubled_quotes(f@.take(j as int)),
        decreases f@.len() - j,
    {
        let c = f[j];
        let ghost before = out@;
        if c == '"' {
            out.push('"');
            out.push('"');
            proof {
                assert(out@ =~= before + seq!['"', '"']);
            }
        } else {
            out.push(c);
            proof {
                assert(out@ =~= before + seq![c]);
            }
        }
        j = j + 1;
        proof {
            assert(f@.take(j as int).drop_last() =~= f@.take(j as int - 1));
            assert(f@.take(j as int).last() == f@[j as int - 1]);
            assert(out@ =~= pre + seq!['"'] + doubled_quotes(f@.take(j as int)));
        }
    }
    out.push('"');
    proof {
        assert(f@.take(f@.len() as int) =~= f@);
        assert(out@ =~= pre + (seq!['"'] + doubled_quotes(f@) + seq!['"']));
    }
}

pub struct CsvFormatter;

impl Formatter for CsvFormatter {
    open spec fn spec_output(&self, m: MapV) -> Seq<char> {
        csv_text(m)
    }

    fn format(&self, data: &UbigeoMap) -> (r: String) {
        let ghost m = data@;
        let mut out: Vec<char> = Vec::new();
        let header = chars_of("Department,Province,District");
        append_chars(&mut out, &header);
        out.push('\n');
        let ghost pre = "Department,Province,District"@ + seq!['\n'];
        proof {
            assert(out@ =~= pre + csv_depts(m.take(0)));
        }
        let mut i: usize = 0;
        while i < data.departments.len()
            invariant
                data.departments@.len() == m.len(),
                m == data@,
                i <= m.len(),
                pre == "Department,Province,District"@ + seq!['\n'],
                out@ == pre + csv_depts(m.take(i as int)),
            decreases m.len() - i,
        {
            let dept = &data.departments[i];
            let ghost dv = m[i as int];
            proof {
                assert(dv == data.departments@[i as int]@);
            }
            let dn = chars_of(dept.name.as_str());
            proof {
                assert(dn@ == dv.0);
            }
            let ghost dpre = out@;
            let mut j: usize = 0;
            proof {
                assert(out@ =~= dpre + csv_provs(dv.0, dv.1.take(0)));
            }
            while j < dept.provinces.len()
                invariant
                    dept.provinces@.len() == dv.1.len(),
                    dv == dept@,
                    j <= dv.1.len(),
                    dn@ == dv.0,
                    out@ == dpre + csv_provs(dv.0, dv.1.take(j as int)),
                decreases dv.1.len() - j,
            {
                let prov = &dept.provinces[j];
                let ghost pvv = dv.1[j as int];
                proof {
                    assert(pvv == dept.provinces@[j as int]@);
                }
                let pn = chars_of(prov.name.as_str());
                proof {
                    assert(pn@ == pvv.0);
                }
                let ghost ppre = out@;
                let mut k: usize = 0;
                proof {
                    assert(out@ =~= ppre + csv_dists(dv.0, pvv.0, pvv.1.take(0)));
                }
                while k < prov.districts.len()
                    invariant
                        prov.districts@.len() == pvv.1.len(),
                        pvv == prov@,
                        k <= pvv.1.len(),
                        dn@ == dv.0,
                        pn@ == pvv.0,
                        out@ == ppre + csv_dists(dv.0, pvv.0, pvv.1.take(k as int)),
                    decreases pvv.1.len() - k,
                {
                    let tn = chars_of(prov.districts[k].as_str());
                    proof {
                        assert(tn@ == pvv.1[k as int]);
                    }
                    let ghost rpre = out@;
                    write_field(&mut out, &dn);
                    out.push(',');
                    write_field(&mut out, &pn);
                    out.push(',');
                    write_field(&mut out, &tn);
                    out.push('\n');
                    k = k + 1;
                    proof {
                        assert(out@ =~= rpre + csv_row(dv.0, pvv.0, pvv.1[k as int - 1]));
                        assert(pvv.1.take(k as int).drop_last() =~= pvv.1.take(k as int - 1));
                        assert(pvv.1.take(k as int).last() == pvv.1[k as int - 1]);
                        assert(out@ =~= ppre + csv_dists(dv.0, pvv.0, pvv.1.take(k as int)));
                    }
                }
                j = j + 1;
                proof {
                    assert(pvv.1.take(pvv.1.len() as int) =~= pvv.1);
                    assert(dv.1.take(j as int).drop_last() =~= dv.1.take(j as int - 1));
                    assert(dv.1.take(j as int).last() == dv.1[j as int - 1]);
                    assert(out@ =~= dpre + csv_provs(dv.0, dv.1.take(j as int)));
                }
            }
            i = i + 1;
            proof {
                assert(dv.1.take(dv.1.len() as int) =~= dv.1);
                assert(m.take(i as int).drop_last() =~= m.take(i as int - 1));
                assert(m.take(i as int).last() == m[i as int - 1]);
                assert(out@ =~= pre + csv_depts(m.take(i as int)));
            }
        }
        proof {
            assert(m.take(m.len() as int) =~= m);
            assert(out@ =~= csv_text(m));
        }
        string_from_chars(&out)
    }
}

/// One output row for every leaf: the data rows of the CSV output, counted.
pub open spec fn leaf_count_prov(ps: Seq<(Seq<char>, Seq<Seq<char>>)>) -> int
    decreases ps.len(),
{
    if ps.len() == 0 {
        0
    } else {
        leaf_count_prov(ps.drop_last()) + ps.last().1.len()
    }
}

pub open spec fn leaf_count(m: MapV) -> int
    decreases m.len(),
{
    if m.len() == 0 {
        0
    } else {
        leaf_count(m.drop_last()) + leaf_count_prov(m.last().1)
    }
}

/// The data rows of the CSV output, one text per leaf, in order.
pub open spec fn csv_rows_dists(d: Seq<char>, p: Seq<char>, ds: Seq<Seq<char>>) -> Seq<Seq<char>>
    decreases ds.len(),
{
    if ds.len() == 0 {
        Seq::empty()
    } else {
        csv_rows_dists(d, p, ds.drop_last()).push(csv_row(d, p, ds.last()))
    }
}

pub open spec fn csv_rows_provs(d: Seq<char>, ps: Seq<(Seq<char>, Seq<Seq<char>>)>) -> Seq<
    Seq<char>,
>
    decreases ps.len(),
{
    if ps.len() == 0 {
        Seq::empty()
    } else {
        csv_rows_provs(d, ps.drop_last()) + csv_rows_dists(d, ps.last().0, ps.last().1)
    }
}

pub open spec fn csv_rows(m: MapV) -> Seq<Seq<char>>
    decreases m.len(),
{
    if m.len() == 0 {
        Seq::empty()
    } else {
        csv_rows(m.drop_last()) + csv_rows_provs(m.last().0, m.last().1)
    }
}

proof fn lemma_csv_dists_rows(d: Seq<char>, p: Seq<char>, ds: Seq<Seq<char>>)
    ensures
        csv_rows_dists(d, p, ds).len() == ds.len(),
        csv_dists(d, p, ds) == concat_texts(csv_rows_dists(d, p, ds)),
    decreases ds.len(),
{
    if ds.len() == 0 {
    } else {
        lemma_csv_dists_rows(d, p, ds.drop_last());
        let rows = csv_rows_dists(d, p, ds);
        assert(rows.drop_last() =~= csv_rows_dists(d, p, ds.drop_last()));
        assert(rows.last() == csv_row(d, p, ds.last()));
    }
}

proof fn lemma_csv_provs_rows(d: Seq<char>, ps: Seq<(Seq<char>, Seq<Seq<char>>)>)
    ensures
        csv_rows_provs(d, ps).len() == leaf_count_prov(ps),
        csv_provs(d, ps) == concat_texts(csv_rows_provs(d, ps)),
    decreases ps.len(),
{
    if ps.len() == 0 {
    } else {
        lemma_csv_provs_rows(d, ps.drop_last());
        lemma_csv_dists_rows(d, ps.last().0, ps.last().1);
        crate::text::lemma_concat_texts_add(
            csv_rows_provs(d, ps.drop_last()),
            csv_rows_dists(d, ps.last().0, ps.last().1),
        );
    }
}

proof fn lemma_csv_depts_rows(m: MapV)
    ensures
        csv_rows(m).len() == leaf_count(m),
        csv_depts(m) == concat_texts(csv_rows(m)),
    decreases m.len(),
{
    if m.len() == 0 {
    } else {
        lemma_csv_depts_rows(m.drop_last());
        lemma_csv_provs_rows(m.last().0, m.last().1);
        crate::text::lemma_concat_texts_add(
            csv_rows(m.drop_last()),
            csv_rows_provs(m.last().0, m.last().1),
        );
    }
}

/// The CSV output is the header row followed by one data row per distinct
/// (department, province, district) leaf, in canonical order: the output's
/// row count is the leaf count plus one.
pub proof fn lemma_csv_row_count(m: MapV)
    ensures
        csv_rows(m).len() == leaf_count(m),
        csv_text(m) == "Department,Province,District"@ + seq!['\n'] + concat_texts(csv_rows(m)),
{
    lemma_csv_depts_rows(m);
}

} // verus!
