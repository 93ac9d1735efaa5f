//! Species tables and the composition language.
//!
//! A gas is a mixture of the species of a table: ordered, unique names. A
//! composition is written as a list of pairs `Species:fraction`, as in
//! `O2:0.21, N2:0.79`. This module reads such a list against a table: it
//! finds the species that each pair names, makes sure that the fraction
//! writes a decimal number, and hands the fraction on as it is written,
//! letter for letter. It computes with no fraction: whoever turns the
//! fractions into numbers also tests that they sum to one.

use vstd::prelude::*;
use vstd::string::*;
use crate::names::{all_distinct, lemma_position_of, position, position_of};
use crate::number::{is_number, writes_number};
use crate::text::{lemma_pair_of, pair_of, split_pair, split_words, words};

verus! {

/// One pair of a composition: the place of the species in the table, and
/// the fraction as the text writes it.
#[derive(Debug, Clone)]
pub struct Assignment {
    pub species: usize,
    pub value: String,
}

impl DeepView for Assignment {
    type V = (int, Seq<char>);

    open spec fn deep_view(&self) -> (int, Seq<char>) {
        (self.species as int, self.value@)
    }
}

/// Why a composition was not read.
#[derive(Debug, Clone)]
pub enum CompositionError {
    /// A word of the list is no pair `Species:fraction`.
    Malformed(String),
    /// A pair names a species that the table does not hold.
    UnknownSpecies(String),
    /// The fraction of a pair writes no decimal number.
    BadFraction(String),
}

/// The model of a `CompositionError`.
pub enum CompositionFault {
    Malformed(Seq<char>),
    UnknownSpecies(Seq<char>),
    BadFraction(Seq<char>),
}

impl View for CompositionError {
    type V = CompositionFault;

    open spec fn view(&self) -> CompositionFault {
        match self {
            CompositionError::Malformed(word) => CompositionFault::Malformed(word@),
            CompositionError::UnknownSpecies(name) => CompositionFault::UnknownSpecies(name@),
            CompositionError::BadFraction(value) => CompositionFault::BadFraction(value@),
        }
    }
}

impl CompositionError {
    /// The error in words.
    pub fn message(&self) -> (r: String)
        ensures
            r@ == match self@ {
                CompositionFault::Malformed(word) => "\""@ + word
                    + "\" is no pair; a composition reads like \"O2:0.21, N2:0.79\""@,
                CompositionFault::UnknownSpecies(name) => "species `"@ + name
                    + "` is not in the species table"@,
                CompositionFault::BadFraction(value) => "\""@ + value + "\" is no fraction"@,
            },
    {
        match self {
            CompositionError::Malformed(word) => String::from_str("\"").concat(
                word.as_str(),
            ).concat("\" is no pair; a composition reads like \"O2:0.21, N2:0.79\""),
            CompositionError::UnknownSpecies(name) => String::from_str("species `").concat(
                name.as_str(),
            ).concat("` is not in the species table"),
            CompositionError::BadFraction(value) => String::from_str("\"").concat(
                value.as_str(),
            ).concat("\" is no fraction"),
        }
    }
}

/// What the pairs `words` assign, read against the table `species`: for each
/// pair the place of its species and its fraction as written, in the order of
/// the list; or what is wrong with the first word that is no pair, names no
/// species of the table, or writes no decimal number for its fraction.
pub open spec fn assignments(species: Seq<Seq<char>>, words: Seq<Seq<char>>) -> Result<
    Seq<(int, Seq<char>)>,
    CompositionFault,
>
    decreases words.len(),
{
    if words.len() == 0 {
        Ok(Seq::empty())
    } else {
        match assignments(species, words.drop_last()) {
            Err(fault) => Err(fault),
            Ok(done) => match pair_of(words.last()) {
                None => Err(CompositionFault::Malformed(words.last())),
                Some((name, value)) => match position_of(species, name) {
                    None => Err(CompositionFault::UnknownSpecies(name)),
                    Some(i) => if is_number(value) {
                        Ok(done.push((i, value)))
                    } else {
                        Err(CompositionFault::BadFraction(value))
                    },
                },
            },
        }
    }
}

/// The fraction of each of `n` species after the assignments: for each
/// species the last that was assigned to it, and none where none was.
pub open spec fn settled(pairs: Seq<(int, Seq<char>)>, n: nat) -> Seq<Option<Seq<char>>>
    decreases pairs.len(),
{
    if pairs.len() == 0 {
        Seq::new(n, |i: int| None)
    } else {
        let before = settled(pairs.drop_last(), n);
        let (i, value) = pairs.last();
        if 0 <= i < n {
            before.update(i, Some(value))
        } else {
            before
        }
    }
}

/// What a composition text says of a gas of the given species: the fraction
/// of each species as the text writes it, and none for a species that the
/// text does not name; or what is wrong with the text.
pub open spec fn composition_of(species: Seq<Seq<char>>, text: Seq<char>) -> Result<
    Seq<Option<Seq<char>>>,
    CompositionFault,
> {
    match assignments(species, words(text)) {
        Err(fault) => Err(fault),
        Ok(pairs) => Ok(settled(pairs, species.len())),
    }
}

proof fn lemma_fault_stays(species: Seq<Seq<char>>, words: Seq<Seq<char>>, k: int)
    requires
        0 <= k <= words.len(),
        assignments(species, words.take(k)) is Err,
    ensures
        assignments(species, words) == assignments(species, words.take(k)),
    decreases words.len() - k,
{
    if k == words.len() {
        assert(words.take(k) =~= words);
    } else {
        assert(words.take(k + 1).drop_last() =~= words.take(k));
        lemma_fault_stays(species, words, k + 1);
    }
}

/// Every assignment that was read stands for one word of the list, in order:
/// the word is the name of the assigned species, a colon, and the assigned
/// fraction, letter for letter; and the fraction writes a decimal number.
pub proof fn lemma_assignments_read_back(species: Seq<Seq<char>>, words: Seq<Seq<char>>)
    ensures
        match assignments(species, words) {
            Ok(pairs) => {
                &&& pairs.len() == words.len()
                &&& forall|k: int|
                    0 <= k < pairs.len() ==> {
                        &&& 0 <= (#[trigger] pairs[k]).0 < species.len()
                        &&& words[k] == species[pairs[k].0].push(':') + pairs[k].1
                        &&& is_number(pairs[k].1)
                    }
            },
            Err(_) => true,
        },
    decreases words.len(),
{
    if words.len() > 0 {
        let rest = words.drop_last();
        lemma_assignments_read_back(species, rest);
        match assignments(species, words) {
            Ok(pairs) => {
                let done = assignments(species, rest)->Ok_0;
                let (name, value) = pair_of(words.last())->Some_0;
                lemma_pair_of(words.last());
                lemma_position_of(species, name);
                assert forall|k: int| 0 <= k < pairs.len() implies {
                    &&& 0 <= (#[trigger] pairs[k]).0 < species.len()
                    &&& words[k] == species[pairs[k].0].push(':') + pairs[k].1
                    &&& is_number(pairs[k].1)
                } by {
                    if k < done.len() {
                        assert(pairs[k] == done[k]);
                        assert(words[k] == rest[k]);
                    }
                }
            },
            Err(_) => {},
        }
    }
}

/// What is read back of a species is what was written for it last: after
/// the assignments there is one entry for each species; a species holds the
/// fraction of the last assignment that names it, and none where no
/// assignment names it.
pub proof fn lemma_settled_is_last(pairs: Seq<(int, Seq<char>)>, n: nat, i: int)
    requires
        0 <= i < n,
    ensures
        settled(pairs, n).len() == n,
        forall|k: int|
            0 <= k < pairs.len() && pairs[k].0 == i && (forall|l: int|
                k < l < pairs.len() ==> pairs[l].0 != i) ==> settled(pairs, n)[i] == Some(
                pairs[k].1,
            ),
        (forall|k: int| 0 <= k < pairs.len() ==> pairs[k].0 != i) ==> settled(pairs, n)[i]
            is None,
    decreases pairs.len(),
{
    if pairs.len() > 0 {
        let rest = pairs.drop_last();
        lemma_settled_is_last(rest, n, i);
        lemma_settled_len(rest, n);
        assert forall|k: int|
            0 <= k < pairs.len() && pairs[k].0 == i && (forall|l: int|
                k < l < pairs.len() ==> pairs[l].0 != i) implies settled(pairs, n)[i] == Some(
            pairs[k].1,
        ) by {
            if k < rest.len() {
                assert(rest[k] == pairs[k]);
                assert forall|l: int| k < l < rest.len() implies rest[l].0 != i by {
                    assert(rest[l] == pairs[l]);
                }
            }
        }
        if forall|k: int| 0 <= k < pairs.len() ==> pairs[k].0 != i {
            assert forall|k: int| 0 <= k < rest.len() implies rest[k].0 != i by {
                assert(rest[k] == pairs[k]);
            }
        }
    }
}

proof fn lemma_settled_len(pairs: Seq<(int, Seq<char>)>, n: nat)
    ensures
        settled(pairs, n).len() == n,
    decreases pairs.len(),
{
    if pairs.len() > 0 {
        lemma_settled_len(pairs.drop_last(), n);
    }
}

/// The fractions of a composition as plain values.
pub open spec fn fractions_view(fractions: Seq<Option<String>>) -> Seq<Option<Seq<char>>> {
    Seq::new(
        fractions.len(),
        |i: int|
            match fractions[i] {
                Some(f) => Some(f@),
                None => None,
            },
    )
}

/// The species that a gas can hold: ordered, unique names.
#[derive(Debug, Clone)]
pub struct SpeciesTable {
    names: Vec<String>,
}

impl View for SpeciesTable {
    type V = Seq<Seq<char>>;

    closed spec fn view(&self) -> Seq<Seq<char>> {
        self.names.deep_view()
    }
}

impl SpeciesTable {
    /// No species stands twice in the table.
    pub open spec fn wf(&self) -> bool {
        all_distinct(self@)
    }

    /// Makes a table of the given names, in their order. A name that stands
    /// twice is refused: the error is the first name that repeats an earlier one.
    pub fn new(names: Vec<String>) -> (r: Result<SpeciesTable, String>)
        ensures
            match r {
                Ok(table) => table@ == names.deep_view() && table.wf(),
                Err(name) => exists|j: int|
                    {
                        &&& 0 <= j < names.len()
                        &&& name@ == #[trigger] names.deep_view()[j]
                        &&& names.deep_view().take(j).contains(name@)
                        &&& all_distinct(names.deep_view().take(j))
                    },
            },
    {
        let n: usize = names.len();
        let mut j: usize = 0;
        while j < n
            invariant
                n == names.len(),
                j <= n,
                all_distinct(names.deep_view().take(j as int)),
            decreases n - j,
        {
            let mut i: usize = 0;
            while i < j
                invariant
                    n == names.len(),
                    j < n,
                    i <= j,
                    all_distinct(names.deep_view().take(j as int)),
                    forall|k: int| 0 <= k < i ==> names.deep_view()[k] != names.deep_view()[j as int],
                decreases j - i,
            {
                if names[i] == names[j] {
                    let name = names[j].clone();
                    proof {
                        let earlier = names.deep_view().take(j as int);
                        assert(earlier[i as int] == name@);
                        assert(earlier.contains(name@));
                        assert(name@ == names.deep_view()[j as int]);
                    }
                    return Err(name);
                }
                i = i + 1;
            }
            proof {
                let grown = names.deep_view().take(j + 1);
                assert forall|a: int, b: int| 0 <= a < b < grown.len() implies grown[a]
                    != grown[b] by {
                    if b < j {
                        assert(names.deep_view().take(j as int)[a] == grown[a]);
                        assert(names.deep_view().take(j as int)[b] == grown[b]);
                    }
                }
            }
            j = j + 1;
        }
        assert(names.deep_view().take(n as int) =~= names.deep_view());
        Ok(SpeciesTable { names })
    }

    /// The names of the species, in the order of the table.
    pub fn species(&self) -> (r: &Vec<String>)
        ensures
            r.deep_view() == self@,
    {
        &self.names
    }

    /// How many species the table holds.
    pub fn num_species(&self) -> (r: usize)
        ensures
            r == self@.len(),
    {
        self.names.len()
    }

    /// Tells whether the table holds `specie`.
    pub fn contains_specie(&self, specie: &str) -> (r: bool)
        ensures
            r == self@.contains(specie@),
    {
        position(&self.names, specie).is_some()
    }

    /// The place of `specie` in the table, or `None` where the table does not
    /// hold it.
    pub fn get_specie_index(&self, specie: &str) -> (r: Option<usize>)
        ensures
            r is Some <==> self@.contains(specie@),
            match r {
                Some(i) => i < self@.len() && self@[i as int] == specie@,
                None => true,
            },
            (match r {
                Some(i) => Some(i as int),
                None => None,
            }) == position_of(self@, specie@),
    {
        let r = position(&self.names, specie);
        proof {
            lemma_position_of(self@, specie@);
        }
        r
    }

    /// Reads the pairs of a composition such as `O2:0.21, N2:0.79` against
    /// the table, one by one.
    ///
    /// Commas and double quotes count for nothing, and white space parts the
    /// pairs. Each pair is a species of the table, one colon, and a fraction,
    /// which is a decimal number. The result holds, for each pair in order,
    /// the place of the species and the fraction as it is written. The first
    /// word that is no such pair is the error.
    pub fn parse_assignments(&self, text: &str) -> (r: Result<Vec<Assignment>, CompositionError>)
        ensures
            match r {
                Ok(pairs) => assignments(self@, words(text@)) == Ok::<
                    Seq<(int, Seq<char>)>,
                    CompositionFault,
                >(pairs.deep_view()),
                Err(e) => assignments(self@, words(text@)) == Err::<
                    Seq<(int, Seq<char>)>,
                    CompositionFault,
                >(e@),
            },
            r matches Ok(pairs) ==> forall|k: int|
                0 <= k < pairs.len() ==> (#[trigger] pairs[k]).species < self@.len(),
    {
        let list = split_words(text);
        let mut out: Vec<Assignment> = Vec::new();
        let n: usize = list.len();
        let mut k: usize = 0;
        proof {
            assert(list.deep_view().take(0) =~= Seq::empty());
            assert(out.deep_view() =~= Seq::empty());
        }
        while k < n
            invariant
                n == list.len(),
                k <= n,
                list.deep_view() == words(text@),
                assignments(self@, list.deep_view().take(k as int)) == Ok::<
                    Seq<(int, Seq<char>)>,
                    CompositionFault,
                >(out.deep_view()),
                forall|j: int| 0 <= j < out.len() ==> (#[trigger] out[j]).species < self@.len(),
            decreases n - k,
        {
            proof {
                assert(list.deep_view().take(k + 1).drop_last() =~= list.deep_view().take(
                    k as int,
                ));
                assert(list.deep_view().take(k + 1).last() == list[k as int]@);
            }
            let (name, value) = match split_pair(list[k].as_str()) {
                Some(pair) => pair,
                None => {
                    proof {
                        lemma_fault_stays(self@, list.deep_view(), k + 1);
                    }
                    return Err(CompositionError::Malformed(list[k].clone()));
                },
            };
            proof {
                lemma_position_of(self@, name@);
            }
            let i: usize = match position(&self.names, name.as_str()) {
                Some(i) => i,
                None => {
                    proof {
                        lemma_fault_stays(self@, list.deep_view(), k + 1);
                    }
                    return Err(CompositionError::UnknownSpecies(name));
                },
            };
            if !writes_number(value.as_str()) {
                proof {
                    lemma_fault_stays(self@, list.deep_view(), k + 1);
                }
                return Err(CompositionError::BadFraction(value));
            }
            let ghost before = out.deep_view();
            out.push(Assignment { species: i, value });
            assert(out.deep_view() =~= before.push((i as int, value@)));
            k = k + 1;
        }
        assert(list.deep_view().take(n as int) =~= list.deep_view());
        Ok(out)
    }

    /// Reads a composition such as `O2:0.21, N2:0.79` against the table.
    ///
    /// The pairs are read as `parse_assignments` reads them. The result holds
    /// one entry per species of the table, in its order: the fraction of the
    /// species as the text writes it, letter for letter. Where a species is
    /// named more than once its last fraction counts, and a species that is
    /// not named has no fraction, which stands for zero.
    pub fn parse_composition(&self, text: &str) -> (r: Result<
        Vec<Option<String>>,
        CompositionError,
    >)
        ensures
            match r {
                Ok(fractions) => {
                    &&& composition_of(self@, text@) == Ok::<
                        Seq<Option<Seq<char>>>,
                        CompositionFault,
                    >(fractions_view(fractions@))
                    &&& fractions.len() == self@.len()
                },
                Err(e) => composition_of(self@, text@) == Err::<
                    Seq<Option<Seq<char>>>,
                    CompositionFault,
                >(e@),
            },
    {
        let pairs = match self.parse_assignments(text) {
            Ok(pairs) => pairs,
            Err(e) => {
                return Err(e);
            },
        };
        let n: usize = self.names.len();
        let mut fractions: Vec<Option<String>> = Vec::new();
        let mut i: usize = 0;
        while i < n
            invariant
                i <= n,
                fractions.len() == i,
                forall|j: int| 0 <= j < i ==> (#[trigger] fractions[j]) is None,
            decreases n - i,
        {
            fractions.push(None);
            i = i + 1;
        }
        let ghost given = pairs.deep_view();
        proof {
            assert(given.take(0) =~= Seq::empty());
            assert(fractions_view(fractions@) =~= settled(given.take(0), n as nat));
        }
        let m: usize = pairs.len();
        let mut k: usize = 0;
        while k < m
            invariant
                m == pairs.len(),
                k <= m,
                n == self@.len(),
                given == pairs.deep_view(),
                fractions.len() == n,
                fractions_view(fractions@) == settled(given.take(k as int), n as nat),
                forall|j: int| 0 <= j < pairs.len() ==> (#[trigger] pairs[j]).species < n,
            decreases m - k,
        {
            proof {
                assert(given.take(k + 1).drop_last() =~= given.take(k as int));
                assert(given.take(k + 1).last() == pairs[k as int].deep_view());
            }
            let a = &pairs[k];
            let ghost before = fractions_view(fractions@);
            fractions.set(a.species, Some(a.value.clone()));
            proof {
                assert(fractions_view(fractions@) =~= before.update(
                    a.species as int,
                    Some(a.value@),
                ));
            }
            k = k + 1;
        }
        proof {
            assert(given.take(m as int) =~= given);
        }
        Ok(fractions)
    }
}

} // verus!
