//! The canonical geography map: an ordered mapping from department name to
//! provinces, each an ordered mapping from province name to an ordered,
//! deduplicated list of district names.  Insertion order is first-seen order,
//! which the SQL output depends on.

use vstd::prelude::*;
use crate::text::valid_department;

verus! {

#[derive(Debug)]
pub struct Province {
    pub name: String,
    pub districts: Vec<String>,
}

#[derive(Debug)]
pub struct Department {
    pub name: String,
    pub provinces: Vec<Province>,
}

#[derive(Debug)]
pub struct UbigeoMap {
    pub departments: Vec<Department>,
}

pub type ProvinceV = (Seq<char>, Seq<Seq<char>>);

pub type DepartmentV = (Seq<char>, Seq<(Seq<char>, Seq<Seq<char>>)>);

pub type MapV = Seq<(Seq<char>, Seq<(Seq<char>, Seq<Seq<char>>)>)>;

pub open spec fn names_view(ds: Seq<String>) -> Seq<Seq<char>> {
    ds.map(|i: int, s: String| s@)
}

impl View for Province {
    type V = ProvinceV;

    open spec fn view(&self) -> ProvinceV {
        (self.name@, names_view(self.districts@))
    }
}

impl View for Department {
    type V = DepartmentV;

    open spec fn view(&self) -> DepartmentV {
        (self.name@, self.provinces@.map(|i: int, p: Province| p@))
    }
}

impl View for UbigeoMap {
    type V = MapV;

    open spec fn view(&self) -> MapV {
        self.departments@.map(|i: int, d: Department| d@)
    }
}

pub open spec fn distinct_seqs(s: Seq<Seq<char>>) -> bool {
    forall|i: int, j: int| 0 <= i < j < s.len() ==> s[i] != s[j]
}

pub open spec fn province_names(ps: Seq<(Seq<char>, Seq<Seq<char>>)>) -> Seq<Seq<char>> {
    ps.map(|i: int, p: (Seq<char>, Seq<Seq<char>>)| p.0)
}

pub open spec fn department_names(m: MapV) -> Seq<Seq<char>> {
    m.map(|i: int, d: (Seq<char>, Seq<(Seq<char>, Seq<Seq<char>>)>)| d.0)
}

/// A province never lists the same district twice, and never stands empty.
pub open spec fn province_wf(p: ProvinceV) -> bool {
    &&& p.1.len() > 0
    &&& distinct_seqs(p.1)
}

/// A department key survived row filtering, and its provinces have unique
/// names and are themselves well formed.
pub open spec fn department_wf(d: DepartmentV) -> bool {
    &&& valid_department(d.0)
    &&& distinct_seqs(province_names(d.1))
    &&& forall|i: int| 0 <= i < d.1.len() ==> province_wf(#[trigger] d.1[i])
}

pub open spec fn map_wf(m: MapV) -> bool {
    &&& distinct_seqs(department_names(m))
    &&& forall|i: int| 0 <= i < m.len() ==> department_wf(#[trigger] m[i])
}

/// Index of the first entry whose name is `k`, or -1.
pub open spec fn find_name_at<T>(s: Seq<(Seq<char>, T)>, k: Seq<char>) -> int
    decreases s.len(),
{
    if s.len() == 0 {
        -1
    } else if s[0].0 == k {
        0
    } else {
        let r = find_name_at(s.drop_first(), k);
        if r == -1 {
            -1
        } else {
            r + 1
        }
    }
}

pub proof fn lemma_find_name_at<T>(s: Seq<(Seq<char>, T)>, k: Seq<char>)
    ensures
        find_name_at(s, k) == -1 ==> forall|i: int| 0 <= i < s.len() ==> (#[trigger] s[i]).0 != k,
        find_name_at(s, k) != -1 ==> {
            let r = find_name_at(s, k);
            &&& 0 <= r < s.len()
            &&& s[r].0 == k
            &&& forall|i: int| 0 <= i < r ==> (#[trigger] s[i]).0 != k
        },
    decreases s.len(),
{
    if s.len() == 0 {
    } else if s[0].0 == k {
    } else {
        lemma_find_name_at(s.drop_first(), k);
        assert(forall|i: int| 1 <= i < s.len() ==> #[trigger] s[i] == s.drop_first()[i - 1]);
    }
}

/// The first-match index is determined by any witness with an unmatched prefix.
pub proof fn lemma_find_name_at_is<T>(s: Seq<(Seq<char>, T)>, k: Seq<char>, r: int)
    requires
        0 <= r < s.len(),
        s[r].0 == k,
        forall|i: int| 0 <= i < r ==> (#[trigger] s[i]).0 != k,
    ensures
        find_name_at(s, k) == r,
    decreases s.len(),
{
    if r == 0 {
    } else {
        assert(forall|i: int| 0 <= i < s.drop_first().len() ==> #[trigger] s.drop_first()[i] == s[i + 1]);
        lemma_find_name_at_is(s.drop_first(), k, r - 1);
    }
}

/// One district added to a province's list, unless already present.
pub open spec fn insert_district(ds: Seq<Seq<char>>, t: Seq<char>) -> Seq<Seq<char>> {
    if ds.contains(t) {
        ds
    } else {
        ds.push(t)
    }
}

pub open spec fn insert_into_department(
    d: DepartmentV,
    p: Seq<char>,
    t: Seq<char>,
) -> DepartmentV {
    let j = find_name_at(d.1, p);
    if j == -1 {
        (d.0, d.1.push((p, seq![t])))
    } else {
        (d.0, d.1.update(j, (d.1[j].0, insert_district(d.1[j].1, t))))
    }
}

/// One cleaned row folded into the map: department, province and district are
/// appended in first-seen order, the district deduplicated.
pub open spec fn spec_insert(m: MapV, d: Seq<char>, p: Seq<char>, t: Seq<char>) -> MapV {
    let i = find_name_at(m, d);
    if i == -1 {
        m.push((d, seq![(p, seq![t])]))
    } else {
        m.update(i, insert_into_department(m[i], p, t))
    }
}

impl UbigeoMap {
    pub open spec fn wf(&self) -> bool {
        map_wf(self@)
    }

    pub fn new() -> (m: UbigeoMap)
        ensures
            m@.len() == 0,
            m.wf(),
    {
        UbigeoMap { departments: Vec::new() }
    }

    /// Records one cleaned row.  The department must already have passed row
    /// filtering; province and district may be any cleaned text.
    pub fn insert_row(&mut self, department: String, province: String, district: String)
        requires
            old(self).wf(),
            valid_department(department@),
        ensures
            final(self)@ == spec_insert(old(self)@, department@, province@, district@),
            final(self).wf(),
    {
        let ghost m0 = self@;
        let ghost dv = department@;
        let ghost pv = province@;
        let ghost tv = district@;
        proof {
            lemma_find_name_at(m0, dv);
        }
        let n = self.departments.len();
        let mut i: usize = 0;
        let mut found = false;
        while i < n && !found
            invariant
                n == self.departments@.len(),
                i <= n,
                self@ == m0,
                dv == department@,
                found ==> i < n && m0[i as int].0 == dv,
                forall|k: int| 0 <= k < i ==> (#[trigger] m0[k]).0 != dv,
            decreases n - i + (if found { 0int } else { 1int }),
        {
            proof {
                assert(m0[i as int].0 == self.departments@[i as int].name@);
            }
            if self.departments[i].name.eq(&department) {
                found = true;
            } else {
                i = i + 1;
            }
        }
        if !found {
            proof {
                if find_name_at(m0, dv) != -1 {
                    let r = find_name_at(m0, dv);
                    assert(m0[r].0 != dv);
                    assert(false);
                }
            }
            let dept = Department {
                name: department,
                provinces: vec![Province { name: province, districts: vec![district] }],
            };
            proof {
                assert(names_view(dept.provinces@[0].districts@) =~= seq![tv]);
                assert(dept@.1 =~= seq![(pv, seq![tv])]);
            }
            self.departments.push(dept);
            proof {
                assert(self@ =~= m0.push((dv, seq![(pv, seq![tv])])));
                lemma_push_wf(m0, dv, pv, tv);
            }
        } else {
            proof {
                lemma_find_name_at_is(m0, dv, i as int);
            }
            let mut dept = self.departments.remove(i);
            let ghost d0 = dept@;
            proof {
                assert(d0 == m0[i as int]);
                lemma_find_name_at(d0.1, pv);
            }
            let pn = dept.provinces.len();
            let mut j: usize = 0;
            let mut jfound = false;
            while j < pn && !jfound
                invariant
                    pn == dept.provinces@.len(),
                    j <= pn,
                    dept@ == d0,
                    pv == province@,
                    jfound ==> j < pn && d0.1[j as int].0 == pv,
                    forall|k: int| 0 <= k < j ==> (#[trigger] d0.1[k]).0 != pv,
                decreases pn - j + (if jfound { 0int } else { 1int }),
            {
                proof {
                    assert(d0.1[j as int].0 == dept.provinces@[j as int].name@);
                }
                if dept.provinces[j].name.eq(&province) {
                    jfound = true;
                } else {
                    j = j + 1;
                }
            }
            if !jfound {
                proof {
                    if find_name_at(d0.1, pv) != -1 {
                        let r = find_name_at(d0.1, pv);
                        assert(d0.1[r].0 != pv);
                        assert(false);
                    }
                }
                let prov = Province { name: province, districts: vec![district] };
                proof {
                    assert(names_view(prov.districts@) =~= seq![tv]);
                }
                dept.provinces.push(prov);
                proof {
                    assert(dept@.1 =~= d0.1.push((pv, seq![tv])));
                    assert(dept@ == insert_into_department(d0, pv, tv));
                }
            } else {
                proof {
                    lemma_find_name_at_is(d0.1, pv, j as int);
                }
                let mut prov = dept.provinces.remove(j);
                let ghost p0 = prov@;
                proof {
                    assert(p0 == d0.1[j as int]);
                }
                let dn = prov.districts.len();
                let mut l: usize = 0;
                let mut present = false;
                while l < dn && !present
                    invariant
                        dn == prov.districts@.len(),
                        l <= dn,
                        prov@ == p0,
                        tv == district@,
                        present ==> p0.1.contains(tv),
                        forall|k: int| 0 <= k < l ==> p0.1[k] != tv,
                    decreases dn - l + (if present { 0int } else { 1int }),
                {
                    proof {
                        assert(p0.1[l as int] == prov.districts@[l as int]@);
                    }
                    if prov.districts[l].eq(&district) {
                        present = true;
                    } else {
                        l = l + 1;
                    }
                }
                if present {
                    proof {
                        assert(insert_district(p0.1, tv) == p0.1);
                    }
                } else {
                    proof {
                        if p0.1.contains(tv) {
                            let w = choose|w: int| 0 <= w < p0.1.len() && p0.1[w] == tv;
                            assert(p0.1[w] != tv);
                            assert(false);
                        }
                    }
                    prov.districts.push(district);
                    proof {
                        assert(prov@.1 =~= p0.1.push(tv));
                    }
                }
                dept.provinces.insert(j, prov);
                proof {
                    assert(dept@.1 =~= d0.1.update(j as int, (
                        d0.1[j as int].0,
                        insert_district(d0.1[j as int].1, tv),
                    )));
                    assert(dept@ == insert_into_department(d0, pv, tv));
                }
            }
            self.departments.insert(i, dept);
            proof {
                assert(self@ =~= m0.update(i as int, insert_into_department(m0[i as int], pv, tv)));
                lemma_update_wf(m0, i as int, pv, tv);
            }
        }
    }
}

/// Row filtering: a well-formed map never holds a department key that is
/// empty or a case-insensitive "na", so no output format can show one.
pub proof fn lemma_no_invalid_department(m: MapV)
    requires
        map_wf(m),
    ensures
        forall|i: int| 0 <= i < m.len() ==> valid_department((#[trigger] m[i]).0),
{
}

/// Deduplication: folding the same cleaned (department, province, district)
/// triple in twice leaves exactly what one insertion leaves; in particular the
/// district appears once in that province's list.
pub proof fn lemma_insert_twice(m: MapV, d: Seq<char>, p: Seq<char>, t: Seq<char>)
    ensures
        spec_insert(spec_insert(m, d, p, t), d, p, t) == spec_insert(m, d, p, t),
{
    let m1 = spec_insert(m, d, p, t);
    lemma_find_name_at(m, d);
    let i = find_name_at(m, d);
    if i == -1 {
        let nd = (d, seq![(p, seq![t])]);
        assert(m1 == m.push(nd));
        let i1 = m.len() as int;
        assert(m1[i1] == nd);
        assert forall|k: int| 0 <= k < i1 implies (#[trigger] m1[k]).0 != d by {
            assert(m1[k] == m[k]);
        }
        lemma_find_name_at_is(m1, d, i1);
        assert(find_name_at(nd.1, p) == 0);
        assert(nd.1[0].1.contains(t)) by {
            assert(nd.1[0].1[0] == t);
        }
        let nd2 = insert_into_department(nd, p, t);
        assert(nd2.1 =~= nd.1);
        assert(nd2 == nd);
        assert(spec_insert(m1, d, p, t) =~= m1);
    } else {
        let d1 = insert_into_department(m[i], p, t);
        assert(m1 == m.update(i, d1));
        assert forall|k: int| 0 <= k < i implies (#[trigger] m1[k]).0 != d by {
            assert(m1[k] == m[k]);
        }
        assert(m1[i].0 == d);
        lemma_find_name_at_is(m1, d, i);
        lemma_find_name_at(m[i].1, p);
        let ps = m[i].1;
        let j = find_name_at(ps, p);
        let d2 = insert_into_department(d1, p, t);
        if j == -1 {
            assert(d1.1 == ps.push((p, seq![t])));
            let j1 = ps.len() as int;
            assert(d1.1[j1] == (p, seq![t]));
            assert forall|k: int| 0 <= k < j1 implies (#[trigger] d1.1[k]).0 != p by {
                assert(d1.1[k] == ps[k]);
            }
            lemma_find_name_at_is(d1.1, p, j1);
            assert(d1.1[j1].1.contains(t)) by {
                assert(d1.1[j1].1[0] == t);
            }
            assert(d2.1 =~= d1.1);
            assert(d2 == d1);
        } else {
            let ds = ps[j].1;
            let ds2 = insert_district(ds, t);
            assert(d1.1 == ps.update(j, (ps[j].0, ds2)));
            assert forall|k: int| 0 <= k < j implies (#[trigger] d1.1[k]).0 != p by {
                assert(d1.1[k] == ps[k]);
            }
            assert(d1.1[j].0 == p);
            lemma_find_name_at_is(d1.1, p, j);
            assert(ds2.contains(t)) by {
                if ds.contains(t) {
                } else {
                    assert(ds2[ds.len() as int] == t);
                }
            }
            assert(insert_district(ds2, t) == ds2);
            assert(d2.1 =~= d1.1);
            assert(d2 == d1);
        }
        assert(spec_insert(m1, d, p, t) == m1.update(i, d2));
        assert(m1.update(i, d2) =~= m1);
    }
}

/// Appending a fresh department keeps the map well formed.
proof fn lemma_push_wf(m: MapV, d: Seq<char>, p: Seq<char>, t: Seq<char>)
    requires
        map_wf(m),
        valid_department(d),
        forall|k: int| 0 <= k < m.len() ==> (#[trigger] m[k]).0 != d,
    ensures
        map_wf(m.push((d, seq![(p, seq![t])]))),
{
    let m2 = m.push((d, seq![(p, seq![t])]));
    assert forall|i: int, j: int| 0 <= i < j < department_names(m2).len() implies department_names(
        m2,
    )[i] != department_names(m2)[j] by {
        assert(department_names(m2)[i] == m2[i].0);
        assert(department_names(m2)[j] == m2[j].0);
        if j < m.len() {
            assert(department_names(m)[i] == m[i].0);
            assert(department_names(m)[j] == m[j].0);
        }
    }
    assert forall|i: int| 0 <= i < m2.len() implies department_wf(#[trigger] m2[i]) by {
        if i < m.len() {
        } else {
            let nd = m2[i];
            assert(province_names(nd.1) =~= seq![p]);
            assert(forall|w: int| 0 <= w < nd.1.len() ==> province_wf(#[trigger] nd.1[w]));
        }
    }
}

/// Folding a row into an existing department keeps the map well formed.
proof fn lemma_update_wf(m: MapV, i: int, p: Seq<char>, t: Seq<char>)
    requires
        map_wf(m),
        0 <= i < m.len(),
    ensures
        map_wf(m.update(i, insert_into_department(m[i], p, t))),
{
    let d = m[i];
    let d2 = insert_into_department(d, p, t);
    let m2 = m.update(i, d2);
    assert(d2.0 == d.0);
    lemma_find_name_at(d.1, p);
    assert(department_wf(d2)) by {
        let j = find_name_at(d.1, p);
        if j == -1 {
            let ps2 = d.1.push((p, seq![t]));
            assert forall|a: int, b: int|
                0 <= a < b < province_names(ps2).len() implies province_names(ps2)[a]
                != province_names(ps2)[b] by {
                assert(province_names(ps2)[a] == ps2[a].0);
                assert(province_names(ps2)[b] == ps2[b].0);
                if b < d.1.len() {
                    assert(province_names(d.1)[a] == d.1[a].0);
                    assert(province_names(d.1)[b] == d.1[b].0);
                }
            }
            assert forall|w: int| 0 <= w < ps2.len() implies province_wf(#[trigger] ps2[w]) by {
                if w == d.1.len() {
                    assert(ps2[w].1 =~= seq![t]);
                }
            }
        } else {
            let ds = d.1[j].1;
            let ds2 = insert_district(ds, t);
            let ps2 = d.1.update(j, (d.1[j].0, ds2));
            assert(province_names(ps2) =~= province_names(d.1));
            assert(province_wf(d.1[j]));
            assert(province_wf((d.1[j].0, ds2))) by {
                if !ds.contains(t) {
                    assert forall|a: int, b: int| 0 <= a < b < ds2.len() implies ds2[a] != ds2[b] by {
                        if b == ds.len() {
                            assert(!ds.contains(t));
                            if ds2[a] == t {
                                assert(ds[a] == t);
                                assert(false);
                            }
                        }
                    }
                }
            }
            assert forall|w: int| 0 <= w < ps2.len() implies province_wf(#[trigger] ps2[w]) by {
                if w != j {
                    assert(ps2[w] == d.1[w]);
                }
            }
        }
    }
    assert(department_names(m2) =~= department_names(m));
    assert forall|w: int| 0 <= w < m2.len() implies department_wf(#[trigger] m2[w]) by {
        if w != i {
            assert(m2[w] == m[w]);
        }
    }
}

} // verus!
