//! SQL output: one script that inserts every department, province and
//! district with correct parent links, without running any query itself.
//! Each dialect reads back the auto-generated parent identifiers its own way:
//! PostgreSQL wraps the script in one anonymous block and captures ids with
//! `RETURNING ... INTO`; MySQL stores `LAST_INSERT_ID()` in session variables
//! after each parent insert; SQLite has each child look its parent up with a
//! `MAX(id)` subquery, which is correct only when the script runs alone,
//! sequentially, against tables it alone fills.
//!
//! Every dialect shares one statement skeleton: a per-department piece around
//! the escaped department name, a per-province piece around the escaped
//! province name followed by the head of the district insert, and one
//! multi-row `VALUES` list per province whose rows end with a comma except
//! the last, which ends the statement with a semicolon.  String values are
//! escaped by doubling embedded single quotes; table names are interpolated
//! verbatim.

use vstd::prelude::*;
use crate::command::SqlDialect;
use crate::format::formatter::Formatter;
use crate::text::{chars_of, string_from_chars, append_chars, concat_texts};
use crate::ubigeo::{UbigeoMap, MapV};

verus! {

/// A name as it stands inside single quotes: every quote doubled.
pub open spec fn sql_escaped(s: Seq<char>) -> Seq<char>
    decreases s.len(),
{
    if s.len() == 0 {
        Seq::empty()
    } else {
        sql_escaped(s.drop_last()) + (if s.last() == '\'' {
            seq!['\'', '\'']
        } else {
            seq![s.last()]
        })
    }
}

/// The constant text pieces of one dialect's script, already holding the
/// table names.
pub struct SqlShape {
    pub head: Seq<char>,
    pub dept_pre: Seq<char>,
    pub dept_post: Seq<char>,
    pub prov_pre: Seq<char>,
    pub prov_post: Seq<char>,
    pub row_pre: Seq<char>,
    pub row_post: Seq<char>,
    pub foot: Seq<char>,
}

/// The middle rows of a `VALUES` list, each ended by a comma.
pub open spec fn sql_vals_mid(ds: Seq<Seq<char>>, pre: Seq<char>, post: Seq<char>) -> Seq<char>
    decreases ds.len(),
{
    if ds.len() == 0 {
        Seq::empty()
    } else {
        sql_vals_mid(ds.drop_last(), pre, post) + pre + sql_escaped(ds.last()) + post + seq![
            ',',
            '\n',
        ]
    }
}

/// A whole `VALUES` list: middle rows comma-ended, the last row ending the
/// statement with a semicolon.
pub open spec fn sql_vals(ds: Seq<Seq<char>>, pre: Seq<char>, post: Seq<char>) -> Seq<char> {
    if ds.len() == 0 {
        Seq::empty()
    } else {
        sql_vals_mid(ds.drop_last(), pre, post) + pre + sql_escaped(ds.last()) + post + seq![
            ';',
            '\n',
        ]
    }
}

pub open spec fn sql_prov_block(p: (Seq<char>, Seq<Seq<char>>), sh: SqlShape) -> Seq<char> {
    sh.prov_pre + sql_escaped(p.0) + sh.prov_post + sql_vals(p.1, sh.row_pre, sh.row_post)
}

pub open spec fn sql_provs(ps: Seq<(Seq<char>, Seq<Seq<char>>)>, sh: SqlShape) -> Seq<char>
    decreases ps.len(),
{
    if ps.len() == 0 {
        Seq::empty()
    } else {
        sql_provs(ps.drop_last(), sh) + sql_prov_block(ps.last(), sh)
    }
}

pub open spec fn sql_dept_block(d: (Seq<char>, Seq<(Seq<char>, Seq<Seq<char>>)>), sh: SqlShape) -> Seq<char> {
    sh.dept_pre + sql_escaped(d.0) + sh.dept_post + sql_provs(d.1, sh)
}

pub open spec fn sql_depts(m: MapV, sh: SqlShape) -> Seq<char>
    decreases m.len(),
{
    if m.len() == 0 {
        Seq::empty()
    } else {
        sql_depts(m.drop_last(), sh) + sql_dept_block(m.last(), sh)
    }
}

pub open spec fn sql_script(m: MapV, sh: SqlShape) -> Seq<char> {
    sh.head + sql_depts(m, sh) + sh.foot
}

/// The pieces of one dialect's script around given table names.
pub open spec fn shape_of(d: SqlDialect, td: Seq<char>, tp: Seq<char>, tt: Seq<char>) -> SqlShape {
    match d {
        SqlDialect::Mysql => SqlShape {
            head: Seq::empty(),
            dept_pre: "INSERT INTO "@ + td + " (name) VALUES ('"@,
            dept_post: "');"@ + seq!['\n'] + "SET @dep_id = LAST_INSERT_ID();"@ + seq!['\n'],
            prov_pre: "INSERT INTO "@ + tp + " (name, "@ + td + "_id) VALUES ('"@,
            prov_post: "', @dep_id);"@ + seq!['\n'] + "SET @prov_id = LAST_INSERT_ID();"@ + seq![
                '\n',
            ] + "INSERT INTO "@ + tt + " (name, "@ + tp + "_id)"@ + seq!['\n'] + "  VALUES"@ + seq![
                '\n',
            ],
            row_pre: "    ('"@,
            row_post: "', @prov_id)"@,
            foot: Seq::empty(),
        },
        SqlDialect::Postgres => SqlShape {
            head: "DO $$"@ + seq!['\n'] + "DECLARE"@ + seq!['\n'] + "    d_id integer;"@ + seq![
                '\n',
            ] + "    p_id integer;"@ + seq!['\n'] + "BEGIN"@ + seq!['\n'],
            dept_pre: "    INSERT INTO "@ + td + " (name) VALUES ('"@,
            dept_post: "') RETURNING id INTO d_id;"@ + seq!['\n'],
            prov_pre: "    INSERT INTO "@ + tp + " (name, "@ + td + "_id) VALUES ('"@,
            prov_post: "', d_id) RETURNING id INTO p_id;"@ + seq!['\n'] + "    INSERT INTO "@ + tt
                + " (name, "@ + tp + "_id)"@ + seq!['\n'] + "      VALUES"@ + seq!['\n'],
            row_pre: "        ('"@,
            row_post: "', p_id)"@,
            foot: "END $$;"@ + seq!['\n'],
        },
        SqlDialect::Sqlite => SqlShape {
            head: Seq::empty(),
            dept_pre: "INSERT INTO "@ + td + " (name) VALUES ('"@,
            dept_post: "');"@ + seq!['\n'],
            prov_pre: "INSERT INTO "@ + tp + " (name, "@ + td + "_id) VALUES ('"@,
            prov_post: "', (SELECT MAX(id) FROM "@ + td + "));"@ + seq!['\n'] + "INSERT INTO "@
                + tt + " (name, "@ + tp + "_id)"@ + seq!['\n'] + "  VALUES"@ + seq!['\n'],
            row_pre: "    ('"@,
            row_post: "', (SELECT MAX(id) FROM "@ + tp + "))"@,
            foot: Seq::empty(),
        },
    }
}

/// The whole SQL output for one dialect and three table names.
pub open spec fn sql_text(
    m: MapV,
    d: SqlDialect,
    td: Seq<char>,
    tp: Seq<char>,
    tt: Seq<char>,
) -> Seq<char> {
    sql_script(m, shape_of(d, td, tp, tt))
}

/// Writes a name with every single quote doubled.
fn write_escaped(out: &mut Vec<char>, s: &Vec<char>)
    ensures
        final(out)@ == old(out)@ + sql_escaped(s@),
{
    let ghost pre = out@;
    let mut i: usize = 0;
    proof {
        assert(out@ =~= pre + sql_escaped(s@.take(0)));
    }
    while i < s.len()
        invariant
            i <= s@.len(),
            out@ == pre + sql_escaped(s@.take(i as int)),
        decreases s@.len() - i,
    {
        let c = s[i];
        let ghost before = out@;
        if c == '\'' {
            out.push('\'');
            out.push('\'');
            proof {
                assert(out@ =~= before + seq!['\'', '\'']);
            }
        } else {
            out.push(c);
            proof {
                assert(out@ =~= before + seq![c]);
            }
        }
        i = i + 1;
        proof {
            assert(s@.take(i as int).drop_last() =~= s@.take(i as int - 1));
            assert(s@.take(i as int).last() == s@[i as int - 1]);
            assert(out@ =~= pre + sql_escaped(s@.take(i as int)));
        }
    }
    proof {
        assert(s@.take(s@.len() as int) =~= s@);
    }
}

pub struct SqlFormatter {
    pub dialect: SqlDialect,
    pub table_department: String,
    pub table_province: String,
    pub table_district: String,
}

impl SqlFormatter {
    pub open spec fn spec_shape(&self) -> SqlShape {
        shape_of(self.dialect, self.table_department@, self.table_province@, self.table_district@)
    }
}

/// Builds the eight constant pieces of the chosen dialect's script.
fn build_shape(f: &SqlFormatter) -> (r: (Vec<char>, Vec<char>, Vec<char>, Vec<char>, Vec<char>, Vec<char>, Vec<char>, Vec<char>))
    ensures
        ({
            let sh = f.spec_shape();
            &&& r.0@ == sh.head
            &&& r.1@ == sh.dept_pre
            &&& r.2@ == sh.dept_post
            &&& r.3@ == sh.prov_pre
            &&& r.4@ == sh.prov_post
            &&& r.5@ == sh.row_pre
            &&& r.6@ == sh.row_post
            &&& r.7@ == sh.foot
        }),
{
    let td = chars_of(f.table_department.as_str());
    let tp = chars_of(f.table_province.as_str());
    let tt = chars_of(f.table_district.as_str());
    let mut head: Vec<char> = Vec::new();
    let mut dept_pre: Vec<char> = Vec::new();
    let mut dept_post: Vec<char> = Vec::new();
    let mut prov_pre: Vec<char> = Vec::new();
    let mut prov_post: Vec<char> = Vec::new();
    let mut row_pre: Vec<char> = Vec::new();
    let mut row_post: Vec<char> = Vec::new();
    let mut foot: Vec<char> = Vec::new();
    match f.dialect {
        SqlDialect::Mysql => {
            append_chars(&mut dept_pre, &chars_of("INSERT INTO "));
            append_chars(&mut dept_pre, &td);
            append_chars(&mut dept_pre, &chars_of(" (name) VALUES ('"));
            append_chars(&mut dept_post, &chars_of("');"));
            dept_post.push('\n');
            append_chars(&mut dept_post, &chars_of("SET @dep_id = LAST_INSERT_ID();"));
            dept_post.push('\n');
            append_chars(&mut prov_pre, &chars_of("INSERT INTO "));
            append_chars(&mut prov_pre, &tp);
            append_chars(&mut prov_pre, &chars_of(" (name, "));
            append_chars(&mut prov_pre, &td);
            append_chars(&mut prov_pre, &chars_of("_id) VALUES ('"));
            append_chars(&mut prov_post, &chars_of("', @dep_id);"));
            prov_post.push('\n');
            append_chars(&mut prov_post, &chars_of("SET @prov_id = LAST_INSERT_ID();"));
            prov_post.push('\n');
            append_chars(&mut prov_post, &chars_of("INSERT INTO "));
            append_chars(&mut prov_post, &tt);
            append_chars(&mut prov_post, &chars_of(" (name, "));
            append_chars(&mut prov_post, &tp);
            append_chars(&mut prov_post, &chars_of("_id)"));
            prov_post.push('\n');
            append_chars(&mut prov_post, &chars_of("  VALUES"));
            prov_post.push('\n');
            append_chars(&mut row_pre, &chars_of("    ('"));
            append_chars(&mut row_post, &chars_of("', @prov_id)"));
        },
        SqlDialect::Postgres => {
            append_chars(&mut head, &chars_of("DO $$"));
            head.push('\n');
            append_chars(&mut head, &chars_of("DECLARE"));
            head.push('\n');
            append_chars(&mut head, &chars_of("    d_id integer;"));
            head.push('\n');
            append_chars(&mut head, &chars_of("    p_id integer;"));
            head.push('\n');
            append_chars(&mut head, &chars_of("BEGIN"));
            head.push('\n');
            append_chars(&mut dept_pre, &chars_of("    INSERT INTO "));
            append_chars(&mut dept_pre, &td);
            append_chars(&mut dept_pre, &chars_of(" (name) VALUES ('"));
            append_chars(&mut dept_post, &chars_of("') RETURNING id INTO d_id;"));
            dept_post.push('\n');
            append_chars(&mut prov_pre, &chars_of("    INSERT INTO "));
            append_chars(&mut prov_pre, &tp);
            append_chars(&mut prov_pre, &chars_of(" (name, "));
            append_chars(&mut prov_pre, &td);
            append_chars(&mut prov_pre, &chars_of("_id) VALUES ('"));
            append_chars(&mut prov_post, &chars_of("', d_id) RETURNING id INTO p_id;"));
            prov_post.push('\n');
            append_chars(&mut prov_post, &chars_of("    INSERT INTO "));
            append_chars(&mut prov_post, &tt);
            append_chars(&mut prov_post, &chars_of(" (name, "));
            append_chars(&mut prov_post, &tp);
            append_chars(&mut prov_post, &chars_of("_id)"));
            prov_post.push('\n');
            append_chars(&mut prov_post, &chars_of("      VALUES"));
            prov_post.push('\n');
            append_chars(&mut row_pre, &chars_of("        ('"));
            append_chars(&mut row_post, &chars_of("', p_id)"));
            append_chars(&mut foot, &chars_of("END $$;"));
            foot.push('\n');
        },
        SqlDialect::Sqlite => {
            append_chars(&mut dept_pre, &chars_of("INSERT INTO "));
            append_chars(&mut dept_pre, &td);
            append_chars(&mut dept_pre, &chars_of(" (name) VALUES ('"));
            append_chars(&mut dept_post, &chars_of("');"));
            dept_post.push('\n');
            append_chars(&mut prov_pre, &chars_of("INSERT INTO "));
            append_chars(&mut prov_pre, &tp);
            append_chars(&mut prov_pre, &chars_of(" (name, "));
            append_chars(&mut prov_pre, &td);
            append_chars(&mut prov_pre, &chars_of("_id) VALUES ('"));
            append_chars(&mut prov_post, &chars_of("', (SELECT MAX(id) FROM "));
            append_chars(&mut prov_post, &td);
            append_chars(&mut prov_post, &chars_of("));"));
            prov_post.push('\n');
            append_chars(&mut prov_post, &chars_of("INSERT INTO "));
            append_chars(&mut prov_post, &tt);
            append_chars(&mut prov_post, &chars_of(" (name, "));
            append_chars(&mut prov_post, &tp);
            append_chars(&mut prov_post, &chars_of("_id)"));
            prov_post.push('\n');
            append_chars(&mut prov_post, &chars_of("  VALUES"));
            prov_post.push('\n');
            append_chars(&mut row_pre, &chars_of("    ('"));
            append_chars(&mut row_post, &chars_of("', (SELECT MAX(id) FROM "));
            append_chars(&mut row_post, &tp);
            append_chars(&mut row_post, &chars_of("))"));
        },
    }
    proof {
        let sh = f.spec_shape();
        assert(head@ =~= sh.head);
        assert(dept_pre@ =~= sh.dept_pre);
        assert(dept_post@ =~= sh.dept_post);
        assert(prov_pre@ =~= sh.prov_pre);
        assert(prov_post@ =~= sh.prov_post);
        assert(row_pre@ =~= sh.row_pre);
        assert(row_post@ =~= sh.row_post);
        assert(foot@ =~= sh.foot);
    }
    (head, dept_pre, dept_post, prov_pre, prov_post, row_pre, row_post, foot)
}

impl Formatter for SqlFormatter {
    open spec fn spec_output(&self, m: MapV) -> Seq<char> {
        sql_text(m, self.dialect, self.table_department@, self.table_province@, self.table_district@)
    }

    fn format(&self, data: &UbigeoMap) -> (r: String) {
        let ghost m = data@;
        let ghost sh = self.spec_shape();
        let (head, dept_pre, dept_post, prov_pre, prov_post, row_pre, row_post, foot) =
            build_shape(self);
        let mut out: Vec<char> = Vec::new();
        append_chars(&mut out, &head);
        let mut i: usize = 0;
        proof {
            assert(out@ =~= sh.head + sql_depts(m.take(0), sh));
        }
        while i < data.departments.len()
            invariant
                data.departments@.len() == m.len(),
                m == data@,
                sh == self.spec_shape(),
                head@ == sh.head && dept_pre@ == sh.dept_pre && dept_post@ == sh.dept_post,
                prov_pre@ == sh.prov_pre && prov_post@ == sh.prov_post,
                row_pre@ == sh.row_pre && row_post@ == sh.row_post && foot@ == sh.foot,
                i <= m.len(),
                out@ == sh.head + sql_depts(m.take(i as int), sh),
            decreases m.len() - i,
        {
            let dept = &data.departments[i];
            let ghost dv = m[i as int];
            proof {
                assert(dv == data.departments@[i as int]@);
            }
            let ghost bpre = out@;
            append_chars(&mut out, &dept_pre);
            let dn = chars_of(dept.name.as_str());
            proof {
                assert(dn@ == dv.0);
            }
            write_escaped(&mut out, &dn);
            append_chars(&mut out, &dept_post);
            let ghost dpre = out@;
            proof {
                assert(dpre =~= bpre + sh.dept_pre + sql_escaped(dv.0) + sh.dept_post);
                assert(out@ =~= dpre + sql_provs(dv.1.take(0), sh));
            }
            let mut j: usize = 0;
            while j < dept.provinces.len()
                invariant
                    dept.provinces@.len() == dv.1.len(),
                    dv == dept@,
                    sh == self.spec_shape(),
                    prov_pre@ == sh.prov_pre && prov_post@ == sh.prov_post,
                    row_pre@ == sh.row_pre && row_post@ == sh.row_post,
                    j <= dv.1.len(),
                    out@ == dpre + sql_provs(dv.1.take(j as int), sh),
                decreases dv.1.len() - j,
            {
                let prov = &dept.provinces[j];
                let ghost pvv = dv.1[j as int];
                proof {
                    assert(pvv == dept.provinces@[j as int]@);
                }
                let ghost ppre = out@;
                append_chars(&mut out, &prov_pre);
                let pn = chars_of(prov.name.as_str());
                proof {
                    assert(pn@ == pvv.0);
                }
                write_escaped(&mut out, &pn);
                append_chars(&mut out, &prov_post);
                let ghost vpre = out@;
                proof {
                    assert(vpre =~= ppre + sh.prov_pre + sql_escaped(pvv.0) + sh.prov_post);
                }
                let dn_count = prov.districts.len();
                let mut k: usize = 0;
                proof {
                    assert(out@ =~= vpre + sql_vals_mid(pvv.1.take(0), sh.row_pre, sh.row_post));
                }
                while k < dn_count
                    invariant
                        prov.districts@.len() == pvv.1.len(),
                        dn_count == pvv.1.len(),
                        pvv == prov@,
                        sh == self.spec_shape(),
                        row_pre@ == sh.row_pre && row_post@ == sh.row_post,
                        k <= pvv.1.len(),
                        k < pvv.1.len() ==> out@ == vpre + sql_vals_mid(
                            pvv.1.take(k as int),
                            sh.row_pre,
                            sh.row_post,
                        ),
                        k == pvv.1.len() && k > 0 ==> out@ == vpre + sql_vals(
                            pvv.1,
                            sh.row_pre,
                            sh.row_post,
                        ),
                        k == pvv.1.len() && k == 0 ==> out@ == vpre,
                    decreases pvv.1.len() - k,
                {
                    let ghost rpre = out@;
                    append_chars(&mut out, &row_pre);
                    let tn = chars_of(prov.districts[k].as_str());
                    proof {
                        assert(tn@ == pvv.1[k as int]);
                    }
                    write_escaped(&mut out, &tn);
                    append_chars(&mut out, &row_post);
                    if k + 1 < dn_count {
                        out.push(',');
                        out.push('\n');
                        proof {
                            assert(out@ =~= rpre + sh.row_pre + sql_escaped(pvv.1[k as int])
                                + sh.row_post + seq![',', '\n']);
                            assert(pvv.1.take(k as int + 1).drop_last() =~= pvv.1.take(k as int));
                            assert(pvv.1.take(k as int + 1).last() == pvv.1[k as int]);
                            assert(out@ =~= vpre + sql_vals_mid(
                                pvv.1.take(k as int + 1),
                                sh.row_pre,
                                sh.row_post,
                            ));
                        }
                    } else {
                        out.push(';');
                        out.push('\n');
                        proof {
                            assert(out@ =~= rpre + sh.row_pre + sql_escaped(pvv.1[k as int])
                                + sh.row_post + seq![';', '\n']);
                            assert(pvv.1.drop_last() =~= pvv.1.take(k as int));
                            assert(pvv.1.last() == pvv.1[k as int]);
                            assert(out@ =~= vpre + sql_vals(pvv.1, sh.row_pre, sh.row_post));
                        }
                    }
                    k = k + 1;
                }
                proof {
                    if pvv.1.len() == 0 {
                        assert(sql_vals(pvv.1, sh.row_pre, sh.row_post) =~= Seq::<char>::empty());
                        assert(out@ =~= vpre + sql_vals(pvv.1, sh.row_pre, sh.row_post));
                    }
                    assert(out@ =~= ppre + sql_prov_block(pvv, sh));
                }
                j = j + 1;
                proof {
                    assert(dv.1.take(j as int).drop_last() =~= dv.1.take(j as int - 1));
                    assert(dv.1.take(j as int).last() == dv.1[j as int - 1]);
                    assert(out@ =~= dpre + sql_provs(dv.1.take(j as int), sh));
                }
            }
            i = i + 1;
            proof {
                assert(dv.1.take(dv.1.len() as int) =~= dv.1);
                assert(out@ =~= bpre + sql_dept_block(dv, sh));
                assert(m.take(i as int).drop_last() =~= m.take(i as int - 1));
                assert(m.take(i as int).last() == m[i as int - 1]);
                assert(out@ =~= sh.head + sql_depts(m.take(i as int), sh));
            }
        }
        append_chars(&mut out, &foot);
        proof {
            assert(m.take(m.len() as int) =~= m);
            assert(out@ =~= sql_script(m, sh));
        }
        string_from_chars(&out)
    }
}

/// The row texts of one province's `VALUES` list, by position: every row but
/// the last ends with a comma, the last ends the statement with a semicolon.
pub open spec fn sql_row_texts(ds: Seq<Seq<char>>, pre: Seq<char>, post: Seq<char>) -> Seq<
    Seq<char>,
> {
    Seq::new(
        ds.len(),
        |j: int|
            pre + sql_escaped(ds[j]) + post + (if j == ds.len() - 1 {
                seq![';', '\n']
            } else {
                seq![',', '\n']
            }),
    )
}

proof fn lemma_sql_vals_mid_rows(ds: Seq<Seq<char>>, pre: Seq<char>, post: Seq<char>)
    ensures
        sql_vals_mid(ds, pre, post) == concat_texts(
            Seq::new(ds.len(), |j: int| pre + sql_escaped(ds[j]) + post + seq![',', '\n']),
        ),
    decreases ds.len(),
{
    let rows = Seq::new(ds.len(), |j: int| pre + sql_escaped(ds[j]) + post + seq![',', '\n']);
    if ds.len() == 0 {
    } else {
        lemma_sql_vals_mid_rows(ds.drop_last(), pre, post);
        assert(rows.drop_last() =~= Seq::new(
            ds.drop_last().len(),
            |j: int| pre + sql_escaped(ds.drop_last()[j]) + post + seq![',', '\n'],
        ));
        assert(rows.last() == pre + sql_escaped(ds.last()) + post + seq![',', '\n']);
        assert(sql_vals_mid(ds, pre, post) =~= concat_texts(rows));
    }
}

/// District batching: a province's `VALUES` list is exactly one row text per
/// district, in order; intermediate rows end with `,` and the last with `;`.
pub proof fn lemma_sql_district_rows(ds: Seq<Seq<char>>, pre: Seq<char>, post: Seq<char>)
    requires
        ds.len() > 0,
    ensures
        sql_row_texts(ds, pre, post).len() == ds.len(),
        sql_vals(ds, pre, post) == concat_texts(sql_row_texts(ds, pre, post)),
{
    let rows = sql_row_texts(ds, pre, post);
    lemma_sql_vals_mid_rows(ds.drop_last(), pre, post);
    assert(rows.drop_last() =~= Seq::new(
        ds.drop_last().len(),
        |j: int| pre + sql_escaped(ds.drop_last()[j]) + post + seq![',', '\n'],
    ));
    assert(rows.last() == pre + sql_escaped(ds.last()) + post + seq![';', '\n']);
    assert(sql_vals(ds, pre, post) =~= concat_texts(rows));
}

/// One block per department, in canonical order: the script is the dialect's
/// head, then exactly one department block per department (each holding that
/// department's single insert statement), then the dialect's foot.
pub proof fn lemma_sql_one_block_per_department(m: MapV, sh: SqlShape)
    ensures
        sql_script(m, sh) == sh.head + concat_texts(
            Seq::new(m.len(), |i: int| sql_dept_block(m[i], sh)),
        ) + sh.foot,
{
    lemma_sql_depts_blocks(m, sh);
}

proof fn lemma_sql_depts_blocks(m: MapV, sh: SqlShape)
    ensures
        sql_depts(m, sh) == concat_texts(Seq::new(m.len(), |i: int| sql_dept_block(m[i], sh))),
    decreases m.len(),
{
    let blocks = Seq::new(m.len(), |i: int| sql_dept_block(m[i], sh));
    if m.len() == 0 {
    } else {
        lemma_sql_depts_blocks(m.drop_last(), sh);
        assert(blocks.drop_last() =~= Seq::new(
            m.drop_last().len(),
            |i: int| sql_dept_block(m.drop_last()[i], sh),
        ));
        assert(blocks.last() == sql_dept_block(m.last(), sh));
        assert(sql_depts(m, sh) =~= concat_texts(blocks));
    }
}

/// One block per (department, province) pair, in canonical order: a
/// department block is that department's insert piece followed by exactly one
/// province block per province, each holding the province's single insert and
/// its single multi-row district insert.
pub proof fn lemma_sql_one_block_per_province(
    d: (Seq<char>, Seq<(Seq<char>, Seq<Seq<char>>)>),
    sh: SqlShape,
)
    ensures
        sql_dept_block(d, sh) == sh.dept_pre + sql_escaped(d.0) + sh.dept_post + concat_texts(
            Seq::new(d.1.len(), |j: int| sql_prov_block(d.1[j], sh)),
        ),
{
    lemma_sql_provs_blocks(d.1, sh);
}

proof fn lemma_sql_provs_blocks(ps: Seq<(Seq<char>, Seq<Seq<char>>)>, sh: SqlShape)
    ensures
        sql_provs(ps, sh) == concat_texts(
            Seq::new(ps.len(), |j: int| sql_prov_block(ps[j], sh)),
        ),
    decreases ps.len(),
{
    let blocks = Seq::new(ps.len(), |j: int| sql_prov_block(ps[j], sh));
    if ps.len() == 0 {
    } else {
        lemma_sql_provs_blocks(ps.drop_last(), sh);
        assert(blocks.drop_last() =~= Seq::new(
            ps.drop_last().len(),
            |j: int| sql_prov_block(ps.drop_last()[j], sh),
        ));
        assert(blocks.last() == sql_prov_block(ps.last(), sh));
        assert(sql_provs(ps, sh) =~= concat_texts(blocks));
    }
}

} // verus!
