//! JSON output: the canonical map as a nested object, department name to
//! province object to array of district names, pretty-printed with two-space
//! indentation.  Strings are escaped the standard way: quote and backslash
//! with a backslash, the named control characters with their short escapes,
//! the rest of the control range as a four-digit escape.

use vstd::prelude::*;
use crate::format::formatter::Formatter;
use crate::text::{chars_of, string_from_chars, append_chars};
use crate::ubigeo::{UbigeoMap, MapV};

verus! {

pub open spec fn hex_char(n: int) -> char {
    if n == 0 { '0' } else if n == 1 { '1' } else if n == 2 { '2' } else if n == 3 { '3' }
    else if n == 4 { '4' } else if n == 5 { '5' } else if n == 6 { '6' } else if n == 7 { '7' }
    else if n == 8 { '8' } else if n == 9 { '9' } else if n == 10 { 'a' } else if n == 11 { 'b' }
    else if n == 12 { 'c' } else if n == 13 { 'd' } else if n == 14 { 'e' } else { 'f' }
}

pub open spec fn json_escaped_char(c: char) -> Seq<char> {
    if c == '"' {
        seq!['\\', '"']
    } else if c == '\\' {
        seq!['\\', '\\']
    } else if c == '\u{8}' {
        seq!['\\', 'b']
    } else if c == '\u{c}' {
        seq!['\\', 'f']
    } else if c == '\n' {
        seq!['\\', 'n']
    } else if c == '\r' {
        seq!['\\', 'r']
    } else if c == '\t' {
        seq!['\\', 't']
    } else if (c as u32) < 32 {
        seq!['\\', 'u', '0', '0', hex_char((c as u32) as int / 16), hex_char((c as u32) as int % 16)]
    } else {
        seq![c]
    }
}

pub open spec fn json_str_body(s: Seq<char>) -> Seq<char>
    decreases s.len(),
{
    if s.len() == 0 {
        Seq::empty()
    } else {
        json_str_body(s.drop_last()) + json_escaped_char(s.last())
    }
}

pub open spec fn json_string(s: Seq<char>) -> Seq<char> {
    seq!['"'] + json_str_body(s) + seq!['"']
}

pub open spec fn json_dist_item(t: Seq<char>) -> Seq<char> {
    seq![' ', ' ', ' ', ' ', ' ', ' '] + json_string(t)
}

pub open spec fn json_dist_items(ds: Seq<Seq<char>>) -> Seq<char>
    decreases ds.len(),
{
    if ds.len() == 0 {
        Seq::empty()
    } else if ds.len() == 1 {
        json_dist_item(ds[0])
    } else {
        json_dist_items(ds.drop_last()) + seq![',', '\n'] + json_dist_item(ds.last())
    }
}

/// A province's district array.
pub open spec fn json_dists(ds: Seq<Seq<char>>) -> Seq<char> {
    if ds.len() == 0 {
        seq!['[', ']']
    } else {
        seq!['[', '\n'] + json_dist_items(ds) + seq!['\n', ' ', ' ', ' ', ' ', ']']
    }
}

pub open spec fn json_prov_entry(p: (Seq<char>, Seq<Seq<char>>)) -> Seq<char> {
    seq![' ', ' ', ' ', ' '] + json_string(p.0) + seq![':', ' '] + json_dists(p.1)
}

pub open spec fn json_prov_entries(ps: Seq<(Seq<char>, Seq<Seq<char>>)>) -> Seq<char>
    decreases ps.len(),
{
    if ps.len() == 0 {
        Seq::empty()
    } else if ps.len() == 1 {
        json_prov_entry(ps[0])
    } else {
        json_prov_entries(ps.drop_last()) + seq![',', '\n'] + json_prov_entry(ps.last())
    }
}

/// A department's province object.
pub open spec fn json_provs(ps: Seq<(Seq<char>, Seq<Seq<char>>)>) -> Seq<char> {
    if ps.len() == 0 {
        seq!['{', '}']
    } else {
        seq!['{', '\n'] + json_prov_entries(ps) + seq!['\n', ' ', ' ', '}']
    }
}

pub open spec fn json_dept_entry(d: (Seq<char>, Seq<(Seq<char>, Seq<Seq<char>>)>)) -> Seq<char> {
    seq![' ', ' '] + json_string(d.0) + seq![':', ' '] + json_provs(d.1)
}

pub open spec fn json_dept_entries(m: MapV) -> Seq<char>
    decreases m.len(),
{
    if m.len() == 0 {
        Seq::empty()
    } else if m.len() == 1 {
        json_dept_entry(m[0])
    } else {
        json_dept_entries(m.drop_last()) + seq![',', '\n'] + json_dept_entry(m.last())
    }
}

/// The whole JSON output.
pub open spec fn json_text(m: MapV) -> Seq<char> {
    if m.len() == 0 {
        seq!['{', '}']
    } else {
        seq!['{', '\n'] + json_dept_entries(m) + seq!['\n', '}']
    }
}

fn hex_char_exec(n: u32) -> (r: char)
    requires
        n < 16,
    ensures
        r == hex_char(n as int),
{
    match n {
        0 => '0', 1 => '1', 2 => '2', 3 => '3', 4 => '4', 5 => '5', 6 => '6', 7 => '7',
        8 => '8', 9 => '9', 10 => 'a', 11 => 'b', 12 => 'c', 13 => 'd', 14 => 'e', _ => 'f',
    }
}

/// Writes one string value, quoted and escaped.
fn write_json_string(out: &mut Vec<char>, s: &Vec<char>)
    ensures
        final(out)@ == old(out)@ + json_string(s@),
{
    let ghost pre = out@;
    out.push('"');
    let mut i: usize = 0;
    proof {
        assert(out@ =~= pre + seq!['"'] + json_str_body(s@.take(0)));
    }
    while i < s.len()
        invariant
            i <= s@.len(),
            out@ == pre + seq!['"'] + json_str_body(s@.take(i as int)),
        decreases s@.len() - i,
    {
        let c = s[i];
        let ghost before = out@;
        if c == '"' {
            out.push('\\');
            out.push('"');
            proof {
                assert(out@ =~= before + json_escaped_char(c));
            }
        } else if c == '\\' {
            out.push('\\');
            out.push('\\');
            proof {
                assert(out@ =~= before + json_escaped_char(c));
            }
        } else if c == '\u{8}' {
            out.push('\\');
            out.push('b');
            proof {
                assert(out@ =~= before + json_escaped_char(c));
            }
        } else if c == '\u{c}' {
            out.push('\\');
            out.push('f');
            proof {
                assert(out@ =~= before + json_escaped_char(c));
            }
        } else if c == '\n' {
            out.push('\\');
            out.push('n');
            proof {
                assert(out@ =~= before + json_escaped_char(c));
            }
        } else if c == '\r' {
            out.push('\\');
            out.push('r');
            proof {
                assert(out@ =~= before + json_escaped_char(c));
            }
        } else if c == '\t' {
            out.push('\\');
            out.push('t');
            proof {
                assert(out@ =~= before + json_escaped_char(c));
            }
        } else if (c as u32) < 32 {
            out.push('\\');
            out.push('u');
            out.push('0');
            out.push('0');
            out.push(hex_char_exec((c as u32) / 16));
            out.push(hex_char_exec((c as u32) % 16));
            proof {
                assert(out@ =~= before + json_escaped_char(c));
            }
        } else {
            out.push(c);
            proof {
                assert(out@ =~= before + json_escaped_char(c));
            }
        }
        i = i + 1;
        proof {
            assert(s@.take(i as int).drop_last() =~= s@.take(i as int - 1));
            assert(s@.take(i as int).last() == s@[i as int - 1]);
            assert(out@ =~= pre + seq!['"'] + json_str_body(s@.take(i as int)));
        }
    }
    out.push('"');
    proof {
        assert(s@.take(s@.len() as int) =~= s@);
        assert(out@ =~= pre + json_string(s@));
    }
}

pub struct JsonFormatter;

impl Formatter for JsonFormatter {
    open spec fn spec_output(&self, m: MapV) -> Seq<char> {
        json_text(m)
    }

    #[verifier::rlimit(100)]
    fn format(&self, data: &UbigeoMap) -> (r: String) {
        let ghost m = data@;
        let mut out: Vec<char> = Vec::new();
        if data.departments.len() == 0 {
            out.push('{');
            out.push('}');
            proof {
                assert(out@ =~= json_text(m));
            }
            return string_from_chars(&out);
        }
        out.push('{');
        out.push('\n');
        let ghost pre = seq!['{', '\n'];
        let mut i: usize = 0;
        while i < data.departments.len()
            invariant
                data.departments@.len() == m.len(),
                m == data@,
                m.len() > 0,
                i <= m.len(),
                pre == seq!['{', '\n'],
                i == 0 ==> out@ == pre,
                i > 0 ==> out@ == pre + json_dept_entries(m.take(i as int)),
            decreases m.len() - i,
        {
            if i > 0 {
                out.push(',');
                out.push('\n');
            }
            let ghost epre = out@;
            let dept = &data.departments[i];
            let ghost dv = m[i as int];
            proof {
                assert(dv == data.departments@[i as int]@);
            }
            out.push(' ');
            out.push(' ');
            let dn = chars_of(dept.name.as_str());
            proof {
                assert(dn@ == dv.0);
            }
            write_json_string(&mut out, &dn);
            out.push(':');
            out.push(' ');
            proof {
                assert(out@ =~= epre + seq![' ', ' '] + json_string(dv.0) + seq![':', ' ']);
            }
            if dept.provinces.len() == 0 {
                out.push('{');
                out.push('}');
                proof {
                    assert(out@ =~= epre + json_dept_entry(dv));
                }
            } else {
                out.push('{');
                out.push('\n');
                let ghost opre = out@;
                let mut j: usize = 0;
                while j < dept.provinces.len()
                    invariant
                        dept.provinces@.len() == dv.1.len(),
                        dv == dept@,
                        dv.1.len() > 0,
                        j <= dv.1.len(),
                        j == 0 ==> out@ == opre,
                        j > 0 ==> out@ == opre + json_prov_entries(dv.1.take(j as int)),
                    decreases dv.1.len() - j,
                {
                    if j > 0 {
                        out.push(',');
                        out.push('\n');
                    }
                    let ghost ppre = out@;
                    let prov = &dept.provinces[j];
                    let ghost pvv = dv.1[j as int];
                    proof {
                        assert(pvv == dept.provinces@[j as int]@);
                    }
                    out.push(' ');
                    out.push(' ');
                    out.push(' ');
                    out.push(' ');
                    let pn = chars_of(prov.name.as_str());
                    proof {
                        assert(pn@ == pvv.0);
                    }
                    write_json_string(&mut out, &pn);
                    out.push(':');
                    out.push(' ');
                    proof {
                        assert(out@ =~= ppre + seq![' ', ' ', ' ', ' '] + json_string(pvv.0)
                            + seq![':', ' ']);
                    }
                    if prov.districts.len() == 0 {
                        out.push('[');
                        out.push(']');
                        proof {
                            assert(out@ =~= ppre + json_prov_entry(pvv));
                        }
                    } else {
                        out.push('[');
                        out.push('\n');
                        let ghost apre = out@;
                        let mut k: usize = 0;
                        while k < prov.districts.len()
                            invariant
                                prov.districts@.len() == pvv.1.len(),
                                pvv == prov@,
                                pvv.1.len() > 0,
                                k <= pvv.1.len(),
                                k == 0 ==> out@ == apre,
                                k > 0 ==> out@ == apre + json_dist_items(pvv.1.take(k as int)),
                            decreases pvv.1.len() - k,
                        {
                            if k > 0 {
                                out.push(',');
                                out.push('\n');
                            }
                            let ghost ipre = out@;
                            out.push(' ');
                            out.push(' ');
                            out.push(' ');
                            out.push(' ');
                            out.push(' ');
                            out.push(' ');
                            let tn = chars_of(prov.districts[k].as_str());
                            proof {
                                assert(tn@ == pvv.1[k as int]);
                            }
                            write_json_string(&mut out, &tn);
                            k = k + 1;
                            proof {
                                assert(out@ =~= ipre + json_dist_item(pvv.1[k as int - 1]));
                                assert(pvv.1.take(k as int).drop_last() =~= pvv.1.take(
                                    k as int - 1,
                                ));
                                assert(pvv.1.take(k as int).last() == pvv.1[k as int - 1]);
                                if k > 1 {
                                    assert(out@ =~= apre + json_dist_items(pvv.1.take(k as int)));
                                } else {
                                    assert(out@ =~= apre + json_dist_items(pvv.1.take(1)));
                                }
                            }
                        }
                        out.push('\n');
                        out.push(' ');
                        out.push(' ');
                        out.push(' ');
                        out.push(' ');
                        out.push(']');
                        proof {
                            assert(pvv.1.take(pvv.1.len() as int) =~= pvv.1);
                            assert(out@ =~= ppre + json_prov_entry(pvv));
                        }
                    }
                    j = j + 1;
                    proof {
                        assert(dv.1.take(j as int).drop_last() =~= dv.1.take(j as int - 1));
                        assert(dv.1.take(j as int).last() == dv.1[j as int - 1]);
                        if j > 1 {
                            assert(out@ =~= opre + json_prov_entries(dv.1.take(j as int)));
                        } else {
                            assert(out@ =~= opre + json_prov_entries(dv.1.take(1)));
                        }
                    }
                }
                out.push('\n');
                out.push(' ');
                out.push(' ');
                out.push('}');
                proof {
                    assert(dv.1.take(dv.1.len() as int) =~= dv.1);
                    assert(out@ =~= epre + json_dept_entry(dv));
                }
            }
            i = i + 1;
            proof {
                assert(m.take(i as int).drop_last() =~= m.take(i as int - 1));
                assert(m.take(i as int).last() == m[i as int - 1]);
                if i > 1 {
                    assert(out@ =~= pre + json_dept_entries(m.take(i as int)));
                } else {
                    assert(out@ =~= pre + json_dept_entries(m.take(1)));
                }
            }
        }
        out.push('\n');
        out.push('}');
        proof {
            assert(m.take(m.len() as int) =~= m);
            assert(out@ =~= json_text(m));
        }
        string_from_chars(&out)
    }
}

} // verus!
