//! Building the canonical geography map from CSV text.
//!
//! The reader is a character-level state machine for comma-separated records
//! with double-quoted fields (embedded quotes written as two quotes, records
//! ended by a line feed or a carriage return / line feed pair, wholly empty
//! lines skipped).  The rows are then cleaned, filtered and folded into a
//! `UbigeoMap`: the first record names the columns, every later record must
//! have the same width, and a row is dropped when its cleaned department is
//! empty or a case-insensitive "na".  The first malformed record aborts the
//! whole run.

use vstd::prelude::*;
use crate::text::{namecase, valid_department, vecs_view, chars_of, namecase_chars,
    string_from_chars, is_valid_department_chars};
use crate::ubigeo::{UbigeoMap, MapV, spec_insert};

verus! {

/// Why processing failed: a syntax error in the quoting, required columns
/// missing from the header, or a record whose width differs from the header's.
#[derive(Clone, Copy, Debug, PartialEq, Eq, Structural)]
pub enum ProcessError {
    Syntax,
    MissingColumns,
    RowWidth,
}

#[derive(Clone, Copy, Debug, PartialEq, Eq, Structural)]
pub enum CsvMode {
    Start,
    Unquoted,
    Quoted,
    QuoteEnd,
    Cr,
}

/// The reader's state: finished records, the open record, the open field,
/// the mode, and whether the open record has consumed any character.
pub struct CsvState {
    pub recs: Seq<Seq<Seq<char>>>,
    pub rec: Seq<Seq<char>>,
    pub field: Seq<char>,
    pub mode: CsvMode,
    pub started: bool,
}

/// The records once the open record is closed: skipped entirely when nothing
/// of it was ever seen (a wholly empty line).
pub open spec fn finished_recs(st: CsvState) -> Seq<Seq<Seq<char>>> {
    if st.started {
        st.recs.push(st.rec.push(st.field))
    } else {
        st.recs
    }
}

pub open spec fn csv_init() -> CsvState {
    CsvState {
        recs: Seq::empty(),
        rec: Seq::empty(),
        field: Seq::empty(),
        mode: CsvMode::Start,
        started: false,
    }
}

/// One character of input; `None` is a syntax error (text between a closing
/// quote and the end of the field).
pub open spec fn csv_step(st: CsvState, c: char) -> Option<CsvState> {
    match st.mode {
        CsvMode::Start => if c == '"' {
            Some(CsvState { recs: st.recs, rec: st.rec, field: st.field, mode: CsvMode::Quoted, started: true })
        } else if c == ',' {
            Some(CsvState { recs: st.recs, rec: st.rec.push(st.field), field: Seq::empty(), mode: CsvMode::Start, started: true })
        } else if c == '\n' {
            Some(CsvState { recs: finished_recs(st), rec: Seq::empty(), field: Seq::empty(), mode: CsvMode::Start, started: false })
        } else if c == '\r' {
            Some(CsvState { recs: finished_recs(st), rec: Seq::empty(), field: Seq::empty(), mode: CsvMode::Cr, started: false })
        } else {
            Some(CsvState { recs: st.recs, rec: st.rec, field: st.field.push(c), mode: CsvMode::Unquoted, started: true })
        },
        CsvMode::Unquoted => if c == ',' {
            Some(CsvState { recs: st.recs, rec: st.rec.push(st.field), field: Seq::empty(), mode: CsvMode::Start, started: true })
        } else if c == '\n' {
            Some(CsvState { recs: finished_recs(st), rec: Seq::empty(), field: Seq::empty(), mode: CsvMode::Start, started: false })
        } else if c == '\r' {
            Some(CsvState { recs: finished_recs(st), rec: Seq::empty(), field: Seq::empty(), mode: CsvMode::Cr, started: false })
        } else {
            Some(CsvState { recs: st.recs, rec: st.rec, field: st.field.push(c), mode: CsvMode::Unquoted, started: true })
        },
        CsvMode::Quoted => if c == '"' {
            Some(CsvState { recs: st.recs, rec: st.rec, field: st.field, mode: CsvMode::QuoteEnd, started: true })
        } else {
            Some(CsvState { recs: st.recs, rec: st.rec, field: st.field.push(c), mode: CsvMode::Quoted, started: true })
        },
        CsvMode::QuoteEnd => if c == '"' {
            Some(CsvState { recs: st.recs, rec: st.rec, field: st.field.push('"'), mode: CsvMode::Quoted, started: true })
        } else if c == ',' {
            Some(CsvState { recs: st.recs, rec: st.rec.push(st.field), field: Seq::empty(), mode: CsvMode::Start, started: true })
        } else if c == '\n' {
            Some(CsvState { recs: finished_recs(st), rec: Seq::empty(), field: Seq::empty(), mode: CsvMode::Start, started: false })
        } else if c == '\r' {
            Some(CsvState { recs: finished_recs(st), rec: Seq::empty(), field: Seq::empty(), mode: CsvMode::Cr, started: false })
        } else {
            None
        },
        CsvMode::Cr => if c == '\n' {
            Some(CsvState { recs: st.recs, rec: Seq::empty(), field: Seq::empty(), mode: CsvMode::Start, started: false })
        } else if c == '"' {
            Some(CsvState { recs: st.recs, rec: Seq::empty(), field: Seq::empty(), mode: CsvMode::Quoted, started: true })
        } else if c == ',' {
            Some(CsvState { recs: st.recs, rec: seq![Seq::<char>::empty()], field: Seq::empty(), mode: CsvMode::Start, started: true })
        } else if c == '\r' {
            Some(CsvState { recs: st.recs, rec: Seq::empty(), field: Seq::empty(), mode: CsvMode::Cr, started: false })
        } else {
            Some(CsvState { recs: st.recs, rec: Seq::empty(), field: seq![c], mode: CsvMode::Unquoted, started: true })
        },
    }
}

pub open spec fn csv_run(s: Seq<char>, st: CsvState) -> Option<CsvState>
    decreases s.len(),
{
    if s.len() == 0 {
        Some(st)
    } else {
        match csv_step(st, s[0]) {
            None => None,
            Some(st2) => csv_run(s.drop_first(), st2),
        }
    }
}

/// The records of a CSV text, or `None` on a syntax error (which includes an
/// unterminated quoted field at end of input).
pub open spec fn csv_records(s: Seq<char>) -> Option<Seq<Seq<Seq<char>>>> {
    match csv_run(s, csv_init()) {
        None => None,
        Some(st) => if st.mode is Quoted {
            None
        } else {
            Some(finished_recs(st))
        },
    }
}

/// Index of the first field equal to `k`, or -1.
pub open spec fn find_text(s: Seq<Seq<char>>, k: Seq<char>) -> int
    decreases s.len(),
{
    if s.len() == 0 {
        -1
    } else if s[0] == k {
        0
    } else {
        let r = find_text(s.drop_first(), k);
        if r == -1 {
            -1
        } else {
            r + 1
        }
    }
}

pub proof fn lemma_find_text(s: Seq<Seq<char>>, k: Seq<char>)
    ensures
        find_text(s, k) == -1 ==> forall|i: int| 0 <= i < s.len() ==> s[i] != k,
        find_text(s, k) != -1 ==> {
            let r = find_text(s, k);
            &&& 0 <= r < s.len()
            &&& s[r] == k
            &&& forall|i: int| 0 <= i < r ==> s[i] != k
        },
    decreases s.len(),
{
    if s.len() == 0 {
    } else if s[0] == k {
    } else {
        lemma_find_text(s.drop_first(), k);
        assert(forall|i: int| 1 <= i < s.len() ==> #[trigger] s[i] == s.drop_first()[i - 1]);
    }
}

pub proof fn lemma_find_text_is(s: Seq<Seq<char>>, k: Seq<char>, r: int)
    requires
        0 <= r < s.len(),
        s[r] == k,
        forall|i: int| 0 <= i < r ==> s[i] != k,
    ensures
        find_text(s, k) == r,
    decreases s.len(),
{
    if r == 0 {
    } else {
        assert(forall|i: int| 0 <= i < s.drop_first().len() ==> #[trigger] s.drop_first()[i] == s[
            i + 1
        ]);
        lemma_find_text_is(s.drop_first(), k, r - 1);
    }
}

/// The data rows folded into a map, aborting at the first record whose width
/// differs from the header's.
pub open spec fn build_rows(
    rows: Seq<Seq<Seq<char>>>,
    width: int,
    di: int,
    pi: int,
    ti: int,
    acc: MapV,
) -> Result<MapV, ProcessError>
    decreases rows.len(),
{
    if rows.len() == 0 {
        Ok(acc)
    } else if rows[0].len() != width {
        Err(ProcessError::RowWidth)
    } else {
        let dep = namecase(rows[0][di]);
        if !valid_department(dep) {
            build_rows(rows.drop_first(), width, di, pi, ti, acc)
        } else {
            build_rows(
                rows.drop_first(),
                width,
                di,
                pi,
                ti,
                spec_insert(acc, dep, namecase(rows[0][pi]), namecase(rows[0][ti])),
            )
        }
    }
}

/// What processing a CSV text yields: the built map, or the first error.
pub open spec fn process_spec(s: Seq<char>) -> Result<MapV, ProcessError> {
    match csv_records(s) {
        None => Err(ProcessError::Syntax),
        Some(recs) => if recs.len() == 0 {
            Ok(Seq::empty())
        } else {
            let hdr = recs[0];
            let rows = recs.drop_first();
            let di = find_text(hdr, "desc_dep_inei"@);
            let pi = find_text(hdr, "desc_prov_inei"@);
            let ti = find_text(hdr, "desc_ubigeo_inei"@);
            if rows.len() == 0 {
                Ok(Seq::empty())
            } else if di == -1 || pi == -1 || ti == -1 {
                Err(ProcessError::MissingColumns)
            } else {
                build_rows(rows, hdr.len() as int, di, pi, ti, Seq::empty())
            }
        },
    }
}

pub open spec fn recs_view(rs: Seq<Vec<Vec<char>>>) -> Seq<Seq<Seq<char>>> {
    rs.map(|i: int, r: Vec<Vec<char>>| vecs_view(r@))
}

/// Splits CSV text into records of fields.
fn parse_csv(s: &Vec<char>) -> (r: Result<Vec<Vec<Vec<char>>>, ProcessError>)
    ensures
        match r {
            Ok(rs) => csv_records(s@) == Some(recs_view(rs@)),
            Err(e) => csv_records(s@) is None && e == ProcessError::Syntax,
        },
{
    let mut recs: Vec<Vec<Vec<char>>> = Vec::new();
    let mut rec: Vec<Vec<char>> = Vec::new();
    let mut field: Vec<char> = Vec::new();
    let mut mode = CsvMode::Start;
    let mut started = false;
    let ghost init = csv_init();
    let mut i: usize = 0;
    proof {
        assert(s@.skip(0) =~= s@);
        assert(recs_view(recs@) =~= init.recs);
        assert(vecs_view(rec@) =~= init.rec);
    }
    while i < s.len()
        invariant
            i <= s@.len(),
            mode is Cr ==> vecs_view(rec@) == Seq::<Seq<char>>::empty() && field@ == Seq::<
                char,
            >::empty() && !started,
            mode is QuoteEnd ==> started,
            csv_run(s@, csv_init()) == csv_run(
                s@.skip(i as int),
                CsvState {
                    recs: recs_view(recs@),
                    rec: vecs_view(rec@),
                    field: field@,
                    mode: mode,
                    started: started,
                },
            ),
        decreases s@.len() - i,
    {
        let ghost st = CsvState {
            recs: recs_view(recs@),
            rec: vecs_view(rec@),
            field: field@,
            mode: mode,
            started: started,
        };
        let c = s[i];
        proof {
            assert(s@.skip(i as int).len() > 0);
            assert(s@.skip(i as int)[0] == c);
            assert(s@.skip(i as int).drop_first() =~= s@.skip(i as int + 1));
        }
        let quote = c == '"';
        let comma = c == ',';
        let nl = c == '\n';
        let cr = c == '\r';
        match mode {
            CsvMode::Start | CsvMode::Unquoted => {
                let in_unquoted = matches!(mode, CsvMode::Unquoted);
                if quote && !in_unquoted {
                    mode = CsvMode::Quoted;
                    started = true;
                } else if comma {
                    rec.push(field);
                    field = Vec::new();
                    mode = CsvMode::Start;
                    started = true;
                    proof {
                        assert(vecs_view(rec@) =~= st.rec.push(st.field));
                    }
                } else if nl || cr {
                    if started {
                        rec.push(field);
                        proof {
                            assert(vecs_view(rec@) =~= st.rec.push(st.field));
                        }
                        recs.push(rec);
                        proof {
                            assert(recs_view(recs@) =~= st.recs.push(st.rec.push(st.field)));
                        }
                    }
                    rec = Vec::new();
                    field = Vec::new();
                    mode = if cr {
                        CsvMode::Cr
                    } else {
                        CsvMode::Start
                    };
                    started = false;
                    proof {
                        assert(vecs_view(rec@) =~= Seq::<Seq<char>>::empty());
                        if !st.started {
                            assert(recs_view(recs@) =~= finished_recs(st));
                        }
                    }
                } else {
                    field.push(c);
                    mode = CsvMode::Unquoted;
                    started = true;
                }
            },
            CsvMode::Quoted => {
                if quote {
                    mode = CsvMode::QuoteEnd;
                } else {
                    field.push(c);
                }
                started = true;
            },
            CsvMode::QuoteEnd => {
                if quote {
                    field.push('"');
                    mode = CsvMode::Quoted;
                } else if comma {
                    rec.push(field);
                    field = Vec::new();
                    mode = CsvMode::Start;
                    proof {
                        assert(vecs_view(rec@) =~= st.rec.push(st.field));
                    }
                } else if nl || cr {
                    rec.push(field);
                    proof {
                        assert(vecs_view(rec@) =~= st.rec.push(st.field));
                    }
                    recs.push(rec);
                    proof {
                        assert(recs_view(recs@) =~= st.recs.push(st.rec.push(st.field)));
                    }
                    rec = Vec::new();
                    field = Vec::new();
                    mode = if cr {
                        CsvMode::Cr
                    } else {
                        CsvMode::Start
                    };
                    started = false;
                    proof {
                        assert(vecs_view(rec@) =~= Seq::<Seq<char>>::empty());
                    }
                } else {
                    proof {
                        assert(csv_step(st, c) is None);
                        assert(csv_run(s@.skip(i as int), st) is None);
                    }
                    return Err(ProcessError::Syntax);
                }
            },
            CsvMode::Cr => {
                if nl {
                    mode = CsvMode::Start;
                    started = false;
                } else if quote {
                    mode = CsvMode::Quoted;
                    started = true;
                } else if comma {
                    rec.push(field);
                    field = Vec::new();
                    mode = CsvMode::Start;
                    started = true;
                    proof {
                        assert(vecs_view(rec@) =~= seq![Seq::<char>::empty()]);
                    }
                } else if cr {
                    mode = CsvMode::Cr;
                    started = false;
                } else {
                    field.push(c);
                    mode = CsvMode::Unquoted;
                    started = true;
                    proof {
                        assert(field@ =~= seq![c]);
                    }
                }
            },
        }
        proof {
            let st2 = CsvState {
                recs: recs_view(recs@),
                rec: vecs_view(rec@),
                field: field@,
                mode: mode,
                started: started,
            };
            assert(csv_step(st, c) == Some(st2));
            assert(csv_run(s@, csv_init()) == csv_run(s@.skip(i as int + 1), st2));
        }
        i = i + 1;
    }
    proof {
        assert(s@.skip(i as int) =~= Seq::<char>::empty());
    }
    let ghost stf = CsvState {
        recs: recs_view(recs@),
        rec: vecs_view(rec@),
        field: field@,
        mode: mode,
        started: started,
    };
    proof {
        assert(csv_run(s@, csv_init()) == Some(stf));
    }
    let syntax_err = matches!(mode, CsvMode::Quoted);
    if syntax_err {
        return Err(ProcessError::Syntax);
    }
    if started {
        rec.push(field);
        proof {
            assert(vecs_view(rec@) =~= stf.rec.push(stf.field));
        }
        recs.push(rec);
        proof {
            assert(recs_view(recs@) =~= finished_recs(stf));
        }
    } else {
        proof {
            assert(recs_view(recs@) =~= finished_recs(stf));
        }
    }
    Ok(recs)
}

fn eq_chars(a: &Vec<char>, b: &Vec<char>) -> (r: bool)
    ensures
        r == (a@ == b@),
{
    if a.len() != b.len() {
        return false;
    }
    let mut i: usize = 0;
    while i < a.len()
        invariant
            a@.len() == b@.len(),
            i <= a@.len(),
            forall|k: int| 0 <= k < i ==> a@[k] == b@[k],
        decreases a@.len() - i,
    {
        if a[i] != b[i] {
            return false;
        }
        i = i + 1;
    }
    proof {
        assert(a@ =~= b@);
    }
    true
}

/// Index of the first header field with the given name.
fn find_column(hdr: &Vec<Vec<char>>, name: &Vec<char>) -> (r: Option<usize>)
    ensures
        match r {
            Some(k) => k < hdr@.len() && find_text(vecs_view(hdr@), name@) == k,
            None => find_text(vecs_view(hdr@), name@) == -1,
        },
{
    let ghost hv = vecs_view(hdr@);
    let mut i: usize = 0;
    while i < hdr.len()
        invariant
            hv == vecs_view(hdr@),
            i <= hdr@.len(),
            forall|k: int| 0 <= k < i ==> hv[k] != name@,
        decreases hdr@.len() - i,
    {
        proof {
            assert(hv[i as int] == hdr@[i as int]@);
        }
        if eq_chars(&hdr[i], name) {
            proof {
                lemma_find_text_is(hv, name@, i as int);
            }
            return Some(i);
        }
        i = i + 1;
    }
    proof {
        lemma_find_text(hv, name@);
        if find_text(hv, name@) != -1 {
            let r = find_text(hv, name@);
            assert(hv[r] != name@);
            assert(false);
        }
    }
    None
}

/// Builds the canonical map from CSV text: parse, locate the three required
/// columns, clean and filter each row, and fold the rows in, in order.
pub fn _process_reader(input: &str) -> (r: Result<UbigeoMap, ProcessError>)
    ensures
        match r {
            Ok(m) => m.wf() && process_spec(input@) == Ok::<MapV, ProcessError>(m@),
            Err(e) => process_spec(input@) == Err::<MapV, ProcessError>(e),
        },
{
    let cs = chars_of(input);
    let recs = match parse_csv(&cs) {
        Ok(rs) => rs,
        Err(e) => {
            return Err(e);
        },
    };
    let ghost rv = recs_view(recs@);
    if recs.len() == 0 {
        let m = UbigeoMap::new();
        proof {
            assert(m@ =~= Seq::<(Seq<char>, Seq<(Seq<char>, Seq<Seq<char>>)>)>::empty());
        }
        return Ok(m);
    }
    if recs.len() == 1 {
        proof {
            assert(rv.drop_first().len() == 0);
        }
        let m = UbigeoMap::new();
        proof {
            assert(m@ =~= Seq::<(Seq<char>, Seq<(Seq<char>, Seq<Seq<char>>)>)>::empty());
        }
        return Ok(m);
    }
    let dep_name = chars_of("desc_dep_inei");
    let prov_name = chars_of("desc_prov_inei");
    let dist_name = chars_of("desc_ubigeo_inei");
    proof {
        assert(rv[0] == vecs_view(recs@[0]@));
        assert(vecs_view(recs@[0]@) == rv[0]);
    }
    let di = match find_column(&recs[0], &dep_name) {
        Some(k) => k,
        None => {
            return Err(ProcessError::MissingColumns);
        },
    };
    let pi = match find_column(&recs[0], &prov_name) {
        Some(k) => k,
        None => {
            return Err(ProcessError::MissingColumns);
        },
    };
    let ti = match find_column(&recs[0], &dist_name) {
        Some(k) => k,
        None => {
            return Err(ProcessError::MissingColumns);
        },
    };
    let width = recs[0].len();
    let ghost rows = rv.drop_first();
    let mut map = UbigeoMap::new();
    proof {
        assert(map@ =~= Seq::<(Seq<char>, Seq<(Seq<char>, Seq<Seq<char>>)>)>::empty());
        assert(rows.skip(0) =~= rows);
    }
    let mut r: usize = 0;
    let nrows = recs.len() - 1;
    while r < nrows
        invariant
            nrows == recs@.len() - 1,
            r <= nrows,
            rv == recs_view(recs@),
            rows == rv.drop_first(),
            width == rv[0].len(),
            di < width && pi < width && ti < width,
            map.wf(),
            process_spec(input@) == build_rows(
                rows.skip(r as int),
                width as int,
                di as int,
                pi as int,
                ti as int,
                map@,
            ),
        decreases nrows - r,
    {
        let ghost rrem = rows.skip(r as int);
        proof {
            assert(rrem.len() > 0);
            assert(rrem[0] == rows[r as int]);
            assert(rows[r as int] == rv[r as int + 1]);
            assert(rv[r as int + 1] == vecs_view(recs@[r as int + 1]@));
            assert(rrem.drop_first() =~= rows.skip(r as int + 1));
        }
        let row = &recs[r + 1];
        if row.len() != width {
            return Err(ProcessError::RowWidth);
        }
        proof {
            assert(rrem[0][di as int] == row@[di as int]@);
            assert(rrem[0][pi as int] == row@[pi as int]@);
            assert(rrem[0][ti as int] == row@[ti as int]@);
        }
        let dep = namecase_chars(&row[di]);
        if is_valid_department_chars(&dep) {
            let prov = namecase_chars(&row[pi]);
            let dist = namecase_chars(&row[ti]);
            map.insert_row(
                string_from_chars(&dep),
                string_from_chars(&prov),
                string_from_chars(&dist),
            );
        }
        r = r + 1;
    }
    proof {
        assert(rows.skip(r as int) =~= Seq::<Seq<Seq<char>>>::empty());
    }
    Ok(map)
}

} // verus!
