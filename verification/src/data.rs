//! A small bundled copy of the ubigeo dataset, used when the caller names no
//! input file of its own.  It carries the three required columns under their
//! canonical header names.

use vstd::prelude::*;

verus! {

/// The text of the bundled dataset.
pub open spec fn embedded_csv() -> Seq<char> {
    "desc_dep_inei,desc_prov_inei,desc_ubigeo_inei\nAMAZONAS,CHACHAPOYAS,CHACHAPOYAS\nAMAZONAS,CHACHAPOYAS,ASUNCION\nAMAZONAS,BAGUA,LA PECA\nLIMA,LIMA,LA MOLINA\nLIMA,LIMA,MIRAFLORES\nLIMA,CA\u{d1}ETE,SAN VICENTE DE CA\u{d1}ETE\nNA,NA,NA\n"@
}

/// The bundled `ubigeos.csv` contents.
pub fn embedded_ubigeos_csv() -> (r: &'static str)
    ensures
        r@ == embedded_csv(),
{
    "desc_dep_inei,desc_prov_inei,desc_ubigeo_inei\nAMAZONAS,CHACHAPOYAS,CHACHAPOYAS\nAMAZONAS,CHACHAPOYAS,ASUNCION\nAMAZONAS,BAGUA,LA PECA\nLIMA,LIMA,LA MOLINA\nLIMA,LIMA,MIRAFLORES\nLIMA,CA\u{d1}ETE,SAN VICENTE DE CA\u{d1}ETE\nNA,NA,NA\n"
}

} // verus!
