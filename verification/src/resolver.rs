//! Matching abbreviations to the people of a receipt.
//!
//! An abbreviation stands for the first person, in the order of the receipt,
//! whose name holds each of its characters and who has not been named yet.
//! What an abbreviation was once taken to mean, it keeps meaning.

use crate::error::SplittingError;
use crate::model::{abbreviations_of, ReceiptView};
use crate::receipt::Receipt;
use crate::text::{
    abbreviates, comma_fields, contains_name, is_abbrev_match_to_string, is_string_vec_unique,
    lemma_first_index, lemma_no_index, split_commas,
};
use vstd::prelude::*;
use vstd::string::StringExecFns;

verus! {

/// Why a list of abbreviations could not be resolved.
pub enum ResolveFailure {
    /// An abbreviation stands for someone who was named already.
    Clash,
    /// An abbreviation matches nobody who is still free.
    Unknown,
}

/// How far a list of abbreviations has been resolved.
pub struct Resolving {
    /// The abbreviations learned, each with the person it stands for.
    pub learned: Seq<(Seq<char>, Seq<char>)>,
    /// The people named so far, in the order of the abbreviations.
    pub claimed: Seq<Seq<char>>,
    /// Why resolving stopped, if it did.
    pub failure: Option<ResolveFailure>,
}

/// The person that a learned abbreviation stands for.
pub open spec fn meaning(learned: Seq<(Seq<char>, Seq<char>)>, abbrev: Seq<char>) -> Option<
    Seq<char>,
> {
    match abbreviations_of(learned).index_of_first(abbrev) {
        Some(i) => Some(learned[i].1),
        None => None,
    }
}

/// For each of the people, whether the abbreviation can stand for them: it
/// abbreviates their name, and they have not been named yet.
pub open spec fn candidates(people: Seq<Seq<char>>, claimed: Seq<Seq<char>>, abbrev: Seq<char>) -> Seq<
    bool,
> {
    Seq::new(people.len(), |j: int| abbreviates(abbrev, people[j]) && !claimed.contains(people[j]))
}

/// The first of the people for whom the abbreviation can stand.
pub open spec fn first_candidate(
    people: Seq<Seq<char>>,
    claimed: Seq<Seq<char>>,
    abbrev: Seq<char>,
) -> Option<int> {
    candidates(people, claimed, abbrev).index_of_first(true)
}

/// Resolving one more abbreviation. A learned abbreviation means what it
/// meant, unless that person was named already; a new one is learned for its
/// first candidate, if it has one. After a failure nothing changes any more.
pub open spec fn resolve_step(people: Seq<Seq<char>>, state: Resolving, abbrev: Seq<char>) -> Resolving {
    if state.failure is Some {
        state
    } else {
        match meaning(state.learned, abbrev) {
            Some(name) => if state.claimed.contains(name) {
                Resolving { failure: Some(ResolveFailure::Clash), ..state }
            } else {
                Resolving { claimed: state.claimed.push(name), ..state }
            },
            None => match first_candidate(people, state.claimed, abbrev) {
                Some(j) => Resolving {
                    learned: state.learned.push((abbrev, people[j])),
                    claimed: state.claimed.push(people[j]),
                    failure: None,
                },
                None => Resolving { failure: Some(ResolveFailure::Unknown), ..state },
            },
        }
    }
}

/// Resolving the first `n` abbreviations, one after the other.
pub open spec fn resolve_upto(
    people: Seq<Seq<char>>,
    learned: Seq<(Seq<char>, Seq<char>)>,
    abbrevs: Seq<Seq<char>>,
    n: int,
) -> Resolving
    decreases n,
{
    if n <= 0 {
        Resolving { learned, claimed: Seq::empty(), failure: None }
    } else {
        resolve_step(people, resolve_upto(people, learned, abbrevs, n - 1), abbrevs[n - 1])
    }
}

/// Resolving all the abbreviations, one after the other.
pub open spec fn resolved(
    people: Seq<Seq<char>>,
    learned: Seq<(Seq<char>, Seq<char>)>,
    abbrevs: Seq<Seq<char>>,
) -> Resolving {
    resolve_upto(people, learned, abbrevs, abbrevs.len() as int)
}

/// After a failure, resolving more abbreviations changes nothing.
pub proof fn lemma_failure_is_final(
    people: Seq<Seq<char>>,
    learned: Seq<(Seq<char>, Seq<char>)>,
    abbrevs: Seq<Seq<char>>,
    k: int,
    n: int,
)
    requires
        k <= n,
        resolve_upto(people, learned, abbrevs, k).failure is Some,
    ensures
        resolve_upto(people, learned, abbrevs, n) == resolve_upto(people, learned, abbrevs, k),
    decreases n - k,
{
    if k < n {
        lemma_failure_is_final(people, learned, abbrevs, k, n - 1);
    }
}

/// Where `abbrev` stands among the learned abbreviations, if it does.
fn find_learned(learned: &Vec<(String, String)>, abbrev: &str) -> (r: Option<usize>)
    ensures
        match r {
            Some(i) => i < learned.len() && meaning(learned.deep_view(), abbrev@) == Some(
                learned@[i as int].1@,
            ),
            None => meaning(learned.deep_view(), abbrev@) is None,
        },
{
    let ghost keys = abbreviations_of(learned.deep_view());
    for i in 0..learned.len()
        invariant
            keys == abbreviations_of(learned.deep_view()),
            forall|j: int| 0 <= j < i ==> keys[j] != abbrev@,
    {
        if *learned[i].0.as_str() == *abbrev {
            proof {
                lemma_first_index(keys, abbrev@, i as int);
            }
            return Some(i);
        }
    }
    proof {
        lemma_no_index(keys, abbrev@);
    }
    None
}

/// The first of the people for whom the abbreviation can stand, if there is
/// one.
fn find_candidate(people: &Vec<String>, claimed: &Vec<String>, abbrev: &str) -> (r: Option<usize>)
    ensures
        match r {
            Some(j) => j < people.len() && first_candidate(
                people.deep_view(),
                claimed.deep_view(),
                abbrev@,
            ) == Some(j as int),
            None => first_candidate(people.deep_view(), claimed.deep_view(), abbrev@) is None,
        },
{
    let ghost open = candidates(people.deep_view(), claimed.deep_view(), abbrev@);
    for j in 0..people.len()
        invariant
            open == candidates(people.deep_view(), claimed.deep_view(), abbrev@),
            forall|k: int| 0 <= k < j ==> !open[k],
    {
        let name = people[j].as_str();
        assert(name@ == people.deep_view()[j as int]);
        if is_abbrev_match_to_string(abbrev, name) && !contains_name(claimed, name) {
            proof {
                lemma_first_index(open, true, j as int);
            }
            return Some(j);
        }
    }
    proof {
        lemma_no_index(open, true);
    }
    None
}

impl Receipt {
    /// The people that a comma-separated list of abbreviations stands for,
    /// in the order of the abbreviations. What is learned on the way is kept
    /// with the receipt.
    ///
    /// No abbreviation may occur twice in the list; then nothing is learned.
    /// Otherwise resolving stops at the first abbreviation that stands for
    /// someone named already, or that matches nobody who is still free; what
    /// was learned before it stays learned.
    pub fn align_to_shared_by(&mut self, abbrevs: &str) -> (r: Result<Vec<String>, SplittingError>)
        requires
            old(self)@.wf(),
        ensures
            ({
                let before = old(self)@;
                let fields = comma_fields(abbrevs@);
                let end = resolved(before.shared_by, before.mapped_abbreviations, fields);
                &&& final(self)@.wf()
                &&& if !fields.no_duplicates() {
                    &&& r matches Err(SplittingError::InvalidAbbreviation(_))
                    &&& final(self)@ == before
                } else {
                    &&& final(self)@ == ReceiptView { mapped_abbreviations: end.learned, ..before }
                    &&& match end.failure {
                        None => r matches Ok(names) && names.deep_view() == end.claimed,
                        Some(ResolveFailure::Clash) => r matches Err(
                            SplittingError::DuplicatePeopleError(_),
                        ),
                        Some(ResolveFailure::Unknown) => r matches Err(
                            SplittingError::InvalidAbbreviation(_),
                        ),
                    }
                }
            }),
    {
        let fields = split_commas(abbrevs);
        let ghost before = self@;
        let ghost people = before.shared_by;
        let ghost learned0 = before.mapped_abbreviations;
        let ghost wanted = fields.deep_view();
        let mut views: Vec<&str> = Vec::new();
        for i in 0..fields.len()
            invariant
                views.len() == i,
                forall|j: int| 0 <= j < i ==> (#[trigger] views@[j])@ == fields@[j]@,
        {
            views.push(fields[i].as_str());
        }
        let listed = views.as_slice();
        assert(listed.deep_view() =~= wanted);
        let mut msg = "The abbreviation string: ".to_owned();
        msg.append(abbrevs);
        msg.append(" has duplicates.");
        match is_string_vec_unique(listed, SplittingError::InvalidAbbreviation(msg)) {
            Ok(_) => {},
            Err(e) => {
                return Err(e);
            },
        }
        let mut matched: Vec<String> = Vec::new();
        assert(matched.deep_view() =~= Seq::<Seq<char>>::empty());
        for k in 0..fields.len()
            invariant
                before == old(self)@,
                before.wf(),
                people == before.shared_by,
                learned0 == before.mapped_abbreviations,
                wanted == fields.deep_view(),
                wanted == comma_fields(abbrevs@),
                wanted.no_duplicates(),
                self@ == (ReceiptView {
                    mapped_abbreviations: self.mapped_abbreviations.deep_view(),
                    ..before
                }),
                self@.wf(),
                resolve_upto(people, learned0, wanted, k as int) == (Resolving {
                    learned: self.mapped_abbreviations.deep_view(),
                    claimed: matched.deep_view(),
                    failure: None,
                }),
        {
            let abbrev = fields[k].as_str();
            assert(abbrev@ == wanted[k as int]);
            let ghost state = resolve_upto(people, learned0, wanted, k as int);
            let ghost claimed = matched.deep_view();
            let ghost learned = self.mapped_abbreviations.deep_view();
            match find_learned(&self.mapped_abbreviations, abbrev) {
                Some(i) => {
                    let name = self.mapped_abbreviations[i].1.as_str();
                    if contains_name(&matched, name) {
                        proof {
                            lemma_failure_is_final(people, learned0, wanted, k + 1, wanted.len() as int);
                        }
                        let mut msg = abbrev.to_owned();
                        msg.append(" maps to ");
                        msg.append(name);
                        msg.append(", which has already been specified once.");
                        return Err(SplittingError::DuplicatePeopleError(msg));
                    } else {
                        matched.push(name.to_owned());
                        assert(matched.deep_view() =~= claimed.push(name@));
                    }
                },
                None => {
                    match find_candidate(&self.shared_by, &matched, abbrev) {
                        Some(j) => {
                            let name = self.shared_by[j].as_str();
                            assert(name@ == people[j as int]);
                            self.mapped_abbreviations.push((abbrev.to_owned(), name.to_owned()));
                            matched.push(name.to_owned());
                            proof {
                                assert(matched.deep_view() =~= claimed.push(name@));
                                assert(self.mapped_abbreviations.deep_view() =~= learned.push(
                                    (abbrev@, name@),
                                ));
                                let keys = abbreviations_of(learned);
                                let more = abbreviations_of(learned.push((abbrev@, name@)));
                                assert(more =~= keys.push(abbrev@));
                                keys.index_of_first_ensures(abbrev@);
                                assert(more.no_duplicates());
                            }
                        },
                        None => {
                            proof {
                                lemma_failure_is_final(
                                    people,
                                    learned0,
                                    wanted,
                                    k + 1,
                                    wanted.len() as int,
                                );
                            }
                            let mut msg = abbrev.to_owned();
                            msg.append(" does not match to a provided person name.");
                            return Err(SplittingError::InvalidAbbreviation(msg));
                        },
                    }
                },
            }
        }
        Ok(matched)
    }
}

} // verus!
