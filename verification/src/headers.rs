//! What is stored of each kind of object: the header of its table of
//! samples, and the number of its columns.

use vstd::prelude::*;
use vstd::string::*;
use crate::text::joined;

verus! {

/// The kinds of object whose samples have a fixed header.
#[derive(Debug, Clone, Copy, PartialEq, Eq, Structural)]
pub enum SampledKind {
    Environment,
    Reservoir,
    Orifice,
    Valve,
}

/// The header of the samples of an object of the given kind.
pub open spec fn header_of(kind: SampledKind) -> Seq<char> {
    match kind {
        SampledKind::Environment => "pressure [bar]\ttemperature [K]"@,
        SampledKind::Reservoir => "pressure [bar]\ttemperature [K]\tmass [kg]"@,
        SampledKind::Orifice => "mass flow [kg/s]\tenthalpy flow [J/s]"@,
        SampledKind::Valve =>
            "crank-angle [deg]\tmass flow [kg/s]\tenthalpy flow [J/s]\tthroat area [cm²]\tbackflow [mg]"@,
    }
}

/// How many values a sample of an object of the given kind has.
pub open spec fn columns_of(kind: SampledKind) -> int {
    match kind {
        SampledKind::Environment => 2,
        SampledKind::Reservoir => 3,
        SampledKind::Orifice => 2,
        SampledKind::Valve => 5,
    }
}

/// The header of the samples of a cylinder, before the species.
pub open spec fn cylinder_base_header() -> Seq<char> {
    "crank-angle [deg]\tpressure [bar]\ttemperature [K]\tvolume [cm³]\tmass [mg]"@
}

/// The header of the samples of a cylinder: crank angle, pressure,
/// temperature, volume and mass, and after them, where the species are
/// stored, one column for each species of the gas.
pub open spec fn cylinder_header(species: Seq<Seq<char>>, store_species: bool) -> Seq<char> {
    if store_species {
        cylinder_base_header().push('\t') + joined(species, '\t')
    } else {
        cylinder_base_header()
    }
}

/// How many values a sample of a cylinder has.
pub open spec fn cylinder_columns(species: nat, store_species: bool) -> int {
    if store_species {
        5 + species as int
    } else {
        5
    }
}

impl SampledKind {
    /// The header of the samples: the names of the columns, parted by tabs.
    pub fn get_headers(&self) -> (r: String)
        ensures
            r@ == header_of(*self),
    {
        match self {
            SampledKind::Environment => "pressure [bar]\ttemperature [K]".to_owned(),
            SampledKind::Reservoir => "pressure [bar]\ttemperature [K]\tmass [kg]".to_owned(),
            SampledKind::Orifice => "mass flow [kg/s]\tenthalpy flow [J/s]".to_owned(),
            SampledKind::Valve =>
                "crank-angle [deg]\tmass flow [kg/s]\tenthalpy flow [J/s]\tthroat area [cm²]\tbackflow [mg]".to_owned(),
        }
    }

    /// The number of columns.
    pub fn num_storable_variables(&self) -> (r: usize)
        ensures
            r == columns_of(*self),
    {
        match self {
            SampledKind::Environment => 2,
            SampledKind::Reservoir => 3,
            SampledKind::Orifice => 2,
            SampledKind::Valve => 5,
        }
    }
}

/// The header of the samples of a cylinder in a gas of the given species.
pub fn cylinder_headers(species: &Vec<String>, store_species: bool) -> (r: String)
    ensures
        r@ == cylinder_header(species.deep_view(), store_species),
{
    let mut out =
        "crank-angle [deg]\tpressure [bar]\ttemperature [K]\tvolume [cm³]\tmass [mg]".to_owned();
    if store_species {
        out.push('\t');
        let ghost start = out@;
        let n: usize = species.len();
        let mut i: usize = 0;
        proof {
            assert(species.deep_view().take(0) =~= Seq::empty());
            assert(out@ =~= start + joined(species.deep_view().take(0), '\t'));
        }
        while i < n
            invariant
                n == species.len(),
                i <= n,
                out@ == start + joined(species.deep_view().take(i as int), '\t'),
            decreases n - i,
        {
            let ghost now = species.deep_view().take(i + 1);
            proof {
                assert(now.drop_last() =~= species.deep_view().take(i as int));
                assert(now.last() == species[i as int]@);
            }
            if i > 0 {
                out.push('\t');
            }
            out.append(species[i].as_str());
            proof {
                if i == 0 {
                    assert(joined(now.drop_last(), '\t') =~= Seq::<char>::empty());
                    assert(out@ =~= start + joined(now, '\t'));
                } else {
                    assert(out@ =~= start + (joined(now.drop_last(), '\t').push('\t')
                        + now.last()));
                }
            }
            i = i + 1;
        }
        assert(species.deep_view().take(n as int) =~= species.deep_view());
    }
    out
}

/// The number of columns of the samples of a cylinder in a gas of the given
/// number of species.
pub fn cylinder_num_storable_variables(species: usize, store_species: bool) -> (r: usize)
    requires
        species + 5 <= usize::MAX,
    ensures
        r == cylinder_columns(species as nat, store_species),
{
    if store_species {
        5 + species
    } else {
        5
    }
}

} // verus!
