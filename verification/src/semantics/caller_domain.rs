//! Which domains the callers of a chunk come from, and how many references each has.
use vstd::prelude::*;

use crate::domain_declaration::{AmbiguousDomain, DomainDeclarations};
use crate::semantics::domain::{domain_under, Domain, DomainView};
use crate::similarity::Similarity;

verus! {

/// The callers of one chunk, counted per domain.
///
/// Domains appear in the order their first reference was listed; each appears once,
/// with a count of at least one.
#[derive(Debug, PartialEq, Eq)]
pub struct CallerDomains {
    entries: Vec<(Domain, usize)>,
}

impl CallerDomains {
    #[verifier::type_invariant]
    closed spec fn has_entries(self) -> bool {
        &&& self.entries@.len() > 0
        &&& keys(self@).no_duplicates()
    }
}

/// The position of a domain in a tally, if present.
pub open spec fn position_of(tally: Seq<(DomainView, nat)>, d: DomainView) -> Option<nat>
    decreases tally.len(),
{
    if tally.len() == 0 {
        None
    } else if tally[0].0 == d {
        Some(0nat)
    } else {
        match position_of(tally.drop_first(), d) {
            Some(i) => Some(i + 1),
            None => None,
        }
    }
}

/// One more reference from `d`.
pub open spec fn counted(tally: Seq<(DomainView, nat)>, d: DomainView) -> Seq<(DomainView, nat)> {
    match position_of(tally, d) {
        Some(i) => tally.update(i as int, (d, tally[i as int].1 + 1)),
        None => tally.push((d, 1nat)),
    }
}

/// References per domain, in order of first appearance.
pub open spec fn tally(domains: Seq<DomainView>) -> Seq<(DomainView, nat)>
    decreases domains.len(),
{
    if domains.len() == 0 {
        Seq::empty()
    } else {
        counted(tally(domains.drop_last()), domains.last())
    }
}

/// The domains of a tally.
pub open spec fn keys(tally: Seq<(DomainView, nat)>) -> Seq<DomainView> {
    tally.map_values(|e: (DomainView, nat)| e.0)
}

/// How many of `a`'s domains also occur in `b`.
pub open spec fn shared_count(a: Seq<DomainView>, b: Seq<DomainView>) -> nat
    decreases a.len(),
{
    if a.len() == 0 {
        0
    } else {
        shared_count(a.drop_last(), b) + if b.contains(a.last()) { 1nat } else { 0nat }
    }
}

/// How many domains occur in `a` or `b`: all of `a`, and those of `b` not in `a`.
pub open spec fn union_count(a: Seq<DomainView>, b: Seq<DomainView>) -> nat {
    a.len() + (b.len() - shared_count(b, a)) as nat
}

/// The first path whose domain is ambiguous, if any.
pub open spec fn first_ambiguous(declarations: DomainDeclarations, paths: Seq<Seq<char>>) -> Option<nat>
    decreases paths.len(),
{
    if paths.len() == 0 {
        None
    } else if domain_under(declarations, paths[0]) is None {
        Some(0nat)
    } else {
        match first_ambiguous(declarations, paths.drop_first()) {
            Some(i) => Some(i + 1),
            None => None,
        }
    }
}

/// The domains of the paths, each decided.
pub open spec fn domains_of(declarations: DomainDeclarations, paths: Seq<Seq<char>>) -> Seq<DomainView> {
    paths.map_values(|p: Seq<char>| domain_under(declarations, p)->Some_0)
}

impl CallerDomains {
    pub closed spec fn view(&self) -> Seq<(DomainView, nat)> {
        self.entries@.map_values(|e: (Domain, usize)| (e.0.view(), e.1 as nat))
    }

    /// Counts the references per domain.
    ///
    /// `paths` are the files the references come from. `None` when there is none.
    ///
    /// # Errors
    ///
    /// A referencing file falls under two declarations; the first such file is reported.
    pub fn from_reference_paths(paths: &[String], declarations: &DomainDeclarations) -> (result:
        Result<Option<CallerDomains>, AmbiguousDomain>)
        ensures
            match first_ambiguous(*declarations, paths@.map_values(|p: String| p@)) {
                Some(i) => result matches Err(a) && a.path_view() == paths@[i as int]@,
                None => if paths@.len() == 0 {
                    result matches Ok(None)
                } else {
                    result matches Ok(Some(c)) && c@ == tally(
                        domains_of(*declarations, paths@.map_values(|p: String| p@)),
                    )
                },
            },
    {
        let ghost views = paths@.map_values(|p: String| p@);
        if paths.len() == 0 {
            return Ok(None);
        }
        let mut entries: Vec<(Domain, usize)> = Vec::new();
        let mut i: usize = 0;
        assert(views.skip(0) =~= views);
        while i < paths.len()
            invariant
                0 <= i <= paths@.len(),
                views == paths@.map_values(|p: String| p@),
                first_ambiguous(*declarations, views) == match first_ambiguous(
                    *declarations,
                    views.skip(i as int),
                ) {
                    Some(k) => Some((k + i) as nat),
                    None => None,
                },
                forall|j: int| 0 <= j < i ==> domain_under(*declarations, #[trigger] views[j]) is Some,
                forall|j: int| 0 <= j < entries@.len() ==> entries@[j].1 <= i,
                i <= usize::MAX - 1 || i == paths@.len(),
                entries@.map_values(|e: (Domain, usize)| (e.0.view(), e.1 as nat)) == tally(
                    domains_of(*declarations, views.take(i as int)),
                ),
            decreases paths@.len() - i,
        {
            proof {
                assert(views.skip(i as int).drop_first() =~= views.skip(i + 1));
                assert(views.skip(i as int)[0] == views[i as int]);
                assert(views[i as int] == paths@[i as int]@);
            }
            let domain = match Domain::of_file(paths[i].as_str(), declarations) {
                Err(ambiguous) => {
                    return Err(ambiguous);
                },
                Ok(domain) => domain,
            };
            let ghost before = entries@.map_values(|e: (Domain, usize)| (e.0.view(), e.1 as nat));
            add_reference(&mut entries, domain, Ghost(i as nat));
            proof {
                let d = domains_of(*declarations, views.take(i + 1));
                assert(d.drop_last() =~= domains_of(*declarations, views.take(i as int)));
                assert(d.last() == domain_under(*declarations, views[i as int])->Some_0);
            }
            i = i + 1;
        }
        proof {
            assert(views.take(paths@.len() as int) =~= views);
            assert(views.skip(paths@.len() as int) =~= Seq::<Seq<char>>::empty());
        }
        proof {
            lemma_tally_nonempty(domains_of(*declarations, views));
            lemma_tally_keys_are_distinct(domains_of(*declarations, views));
        }
        Ok(Some(CallerDomains { entries }))
    }

    /// The references per domain, in order of first appearance.
    pub fn references_per_domain(&self) -> (entries: &Vec<(Domain, usize)>)
        ensures
            entries@.map_values(|e: (Domain, usize)| (e.0.view(), e.1 as nat)) == self@,
    {
        &self.entries
    }

    /// The Jaccard index of the two sets of domains: shared domains over all domains.
    pub fn jaccard(&self, other: &CallerDomains) -> (overlap: Similarity)
        ensures
            overlap.spec_shared() == shared_count(keys(self@), keys(other@)),
            overlap.spec_total() == union_count(keys(self@), keys(other@)),
            overlap.spec_shared() == keys(self@).to_set().intersect(keys(other@).to_set()).len(),
            overlap.spec_total() == keys(self@).to_set().union(keys(other@).to_set()).len(),
    {
        proof {
            use_type_invariant(self);
            use_type_invariant(other);
            lemma_overlap_counts_distinct_domains(keys(self@), keys(other@));
        }
        overlap_of(&self.entries, &other.entries)
    }
}

/// Whether the domain is among the tally's keys.
fn has_domain(entries: &Vec<(Domain, usize)>, d: &Domain) -> (found: bool)
    ensures
        found == keys(entries@.map_values(|e: (Domain, usize)| (e.0.view(), e.1 as nat))).contains(
            d.view(),
        ),
{
    let ghost k = keys(entries@.map_values(|e: (Domain, usize)| (e.0.view(), e.1 as nat)));
    let mut i: usize = 0;
    while i < entries.len()
        invariant
            0 <= i <= entries@.len(),
            k == keys(entries@.map_values(|e: (Domain, usize)| (e.0.view(), e.1 as nat))),
            forall|j: int| 0 <= j < i ==> k[j] != d.view(),
        decreases entries@.len() - i,
    {
        if entries[i].0.same_as(d) {
            assert(k[i as int] == d.view());
            return true;
        }
        i = i + 1;
    }
    proof {
        if k.contains(d.view()) {
            let j = choose|j: int| 0 <= j < k.len() && k[j] == d.view();
            assert(k[j] != d.view());
        }
    }
    false
}

/// The overlap of two tallies' domains.
fn overlap_of(a: &Vec<(Domain, usize)>, b: &Vec<(Domain, usize)>) -> (overlap: Similarity)
    requires
        a@.len() > 0,
    ensures
        overlap.spec_shared() == shared_count(
            keys(a@.map_values(|e: (Domain, usize)| (e.0.view(), e.1 as nat))),
            keys(b@.map_values(|e: (Domain, usize)| (e.0.view(), e.1 as nat))),
        ),
        overlap.spec_total() == union_count(
            keys(a@.map_values(|e: (Domain, usize)| (e.0.view(), e.1 as nat))),
            keys(b@.map_values(|e: (Domain, usize)| (e.0.view(), e.1 as nat))),
        ),
{
    let ghost ka = keys(a@.map_values(|e: (Domain, usize)| (e.0.view(), e.1 as nat)));
    let ghost kb = keys(b@.map_values(|e: (Domain, usize)| (e.0.view(), e.1 as nat)));
    let shared = count_shared(a, b);
    let back = count_shared(b, a);
    proof {
        lemma_shared_count_bound(ka, kb);
        lemma_shared_count_bound(kb, ka);
    }
    let total = (a.len() as u128) + ((b.len() - back) as u128);
    proof {
        assert(ka.len() == a@.len());
        assert(kb.len() == b@.len());
    }
    Similarity::new(shared as u128, total).unwrap()
}

proof fn lemma_position_of(t: Seq<(DomainView, nat)>, d: DomainView)
    ensures
        position_of(t, d) matches Some(i) ==> i < t.len() && t[i as int].0 == d,
    decreases t.len(),
{
    if t.len() > 0 && t[0].0 != d {
        lemma_position_of(t.drop_first(), d);
    }
}

proof fn lemma_tally_nonempty(s: Seq<DomainView>)
    ensures
        s.len() > 0 ==> tally(s).len() > 0,
        tally(s).len() <= s.len(),
    decreases s.len(),
{
    if s.len() > 0 {
        lemma_tally_nonempty(s.drop_last());
        lemma_position_of(tally(s.drop_last()), s.last());
    }
}

impl Clone for CallerDomains {
    fn clone(&self) -> (copy: CallerDomains)
        ensures
            copy@ == self@,
    {
        proof {
            use_type_invariant(self);
        }
        let mut entries: Vec<(Domain, usize)> = Vec::new();
        let mut i: usize = 0;
        while i < self.entries.len()
            invariant
                0 <= i <= self.entries@.len(),
                self.entries@.len() > 0,
                entries@.len() == i,
                entries@.map_values(|e: (Domain, usize)| (e.0.view(), e.1 as nat))
                    == self.entries@.map_values(|e: (Domain, usize)| (e.0.view(), e.1 as nat)).take(
                    i as int,
                ),
            decreases self.entries@.len() - i,
        {
            let ghost before = entries@.map_values(|e: (Domain, usize)| (e.0.view(), e.1 as nat));
            let d = self.entries[i].0.duplicate();
            let n = self.entries[i].1;
            entries.push((d, n));
            proof {
                assert(entries@[i as int].0.view() == self.entries@[i as int].0.view());
                assert(entries@[i as int].1 == self.entries@[i as int].1);
                assert(entries@.map_values(|e: (Domain, usize)| (e.0.view(), e.1 as nat)) =~= self.entries@.map_values(|e: (Domain, usize)| (e.0.view(), e.1 as nat)).take(
                    i + 1,
                ));
            }
            i = i + 1;
        }
        assert(self.entries@.map_values(|e: (Domain, usize)| (e.0.view(), e.1 as nat)).take(
            self.entries@.len() as int,
        ) =~= self.entries@.map_values(|e: (Domain, usize)| (e.0.view(), e.1 as nat)));
        CallerDomains { entries }
    }
}

proof fn lemma_shared_count_bound(a: Seq<DomainView>, b: Seq<DomainView>)
    ensures
        shared_count(a, b) <= a.len(),
    decreases a.len(),
{
    if a.len() > 0 {
        lemma_shared_count_bound(a.drop_last(), b);
    }
}

/// How many of `a`'s domains occur in `b`.
fn count_shared(a: &Vec<(Domain, usize)>, b: &Vec<(Domain, usize)>) -> (n: usize)
    ensures
        n == shared_count(
            keys(a@.map_values(|e: (Domain, usize)| (e.0.view(), e.1 as nat))),
            keys(b@.map_values(|e: (Domain, usize)| (e.0.view(), e.1 as nat))),
        ),
{
    let ghost ka = keys(a@.map_values(|e: (Domain, usize)| (e.0.view(), e.1 as nat)));
    let ghost kb = keys(b@.map_values(|e: (Domain, usize)| (e.0.view(), e.1 as nat)));
    let mut n: usize = 0;
    let mut i: usize = 0;
    while i < a.len()
        invariant
            0 <= i <= a@.len(),
            ka == keys(a@.map_values(|e: (Domain, usize)| (e.0.view(), e.1 as nat))),
            kb == keys(b@.map_values(|e: (Domain, usize)| (e.0.view(), e.1 as nat))),
            n == shared_count(ka.take(i as int), kb),
            n <= i,
        decreases a@.len() - i,
    {
        proof {
            assert(ka.take(i + 1).drop_last() =~= ka.take(i as int));
            assert(ka.take(i + 1).last() == a@[i as int].0.view());
        }
        if has_domain(b, &a[i].0) {
            n = n + 1;
        }
        i = i + 1;
    }
    assert(ka.take(a@.len() as int) =~= ka);
    n
}

/// Counts one more reference from `d`.
fn add_reference(entries: &mut Vec<(Domain, usize)>, d: Domain, Ghost(bound): Ghost<nat>)
    requires
        bound < usize::MAX,
        forall|j: int| 0 <= j < old(entries)@.len() ==> old(entries)@[j].1 <= bound,
    ensures
        forall|j: int| 0 <= j < final(entries)@.len() ==> final(entries)@[j].1 <= bound + 1,
        final(entries)@.map_values(|e: (Domain, usize)| (e.0.view(), e.1 as nat)) == counted(
            old(entries)@.map_values(|e: (Domain, usize)| (e.0.view(), e.1 as nat)),
            d.view(),
        ),
{
    let ghost t = entries@.map_values(|e: (Domain, usize)| (e.0.view(), e.1 as nat));
    let mut i: usize = 0;
    assert(t.skip(0) =~= t);
    while i < entries.len()
        invariant
            0 <= i <= entries@.len(),
            entries@ == old(entries)@,
            t == entries@.map_values(|e: (Domain, usize)| (e.0.view(), e.1 as nat)),
            bound < usize::MAX,
            forall|j: int| 0 <= j < entries@.len() ==> entries@[j].1 <= bound,
            position_of(t, d.view()) == match position_of(t.skip(i as int), d.view()) {
                Some(k) => Some((k + i) as nat),
                None => None,
            },
        decreases entries@.len() - i,
    {
        proof {
            assert(t.skip(i as int).drop_first() =~= t.skip(i + 1));
            assert(t.skip(i as int)[0] == t[i as int]);
        }
        if entries[i].0.same_as(&d) {
            let count = entries[i].1;
            let kept = entries[i].0.duplicate();
            let new_count = count + 1;
            entries.set(i, (kept, new_count));
            proof {
                assert(position_of(t, d.view()) == Some(i as nat));
                assert(final(entries)@.map_values(|e: (Domain, usize)| (e.0.view(), e.1 as nat)) =~= t.update(i as int, (d.view(), t[i as int].1 + 1)));
            }
            return;
        }
        i = i + 1;
    }
    proof {
        assert(t.skip(entries@.len() as int) =~= Seq::<(DomainView, nat)>::empty());
    }
    entries.push((d, 1));
    assert(entries@.map_values(|e: (Domain, usize)| (e.0.view(), e.1 as nat)) =~= t.push((d.view(), 1nat)));
}

/// A domain with no position in a tally is none of its keys.
proof fn lemma_position_of_none(t: Seq<(DomainView, nat)>, d: DomainView)
    ensures
        position_of(t, d) is None ==> !keys(t).contains(d),
    decreases t.len(),
{
    if t.len() > 0 && t[0].0 != d {
        lemma_position_of_none(t.drop_first(), d);
        if position_of(t, d) is None && keys(t).contains(d) {
            let k = choose|k: int| 0 <= k < keys(t).len() && keys(t)[k] == d;
            assert(k > 0);
            assert(keys(t.drop_first())[k - 1] == d);
        }
    }
}

/// A tally names each domain once.
pub proof fn lemma_tally_keys_are_distinct(s: Seq<DomainView>)
    ensures
        keys(tally(s)).no_duplicates(),
    decreases s.len(),
{
    if s.len() > 0 {
        let before = tally(s.drop_last());
        lemma_tally_keys_are_distinct(s.drop_last());
        lemma_position_of(before, s.last());
        lemma_position_of_none(before, s.last());
        match position_of(before, s.last()) {
            Some(i) => {
                assert(keys(tally(s)) =~= keys(before));
            },
            None => {
                assert(keys(tally(s)) =~= keys(before).push(s.last()));
            },
        }
    }
}

/// Of domains each listed once, the number also in `b` is the number of domains the two
/// lists have in common.
proof fn lemma_shared_count_is_common_domains(a: Seq<DomainView>, b: Seq<DomainView>)
    requires
        a.no_duplicates(),
    ensures
        shared_count(a, b) == a.to_set().intersect(b.to_set()).len(),
    decreases a.len(),
{
    broadcast use vstd::seq_lib::seq_to_set_is_finite;
    broadcast use vstd::set::group_set_axioms;

    if a.len() == 0 {
        assert(a.to_set().intersect(b.to_set()) =~= Set::<DomainView>::empty());
    } else {
        let rest = a.drop_last();
        let x = a.last();
        assert(rest.no_duplicates()) by {
            assert forall|i: int, j: int| 0 <= i < rest.len() && 0 <= j < rest.len() && i != j implies rest[i] != rest[j] by {
                assert(rest[i] == a[i] && rest[j] == a[j]);
            }
        }
        lemma_shared_count_is_common_domains(rest, b);
        assert(a =~= rest.push(x));
        rest.lemma_push_to_set_commute(x);
        assert(!rest.to_set().contains(x)) by {
            if rest.to_set().contains(x) {
                let k = choose|k: int| 0 <= k < rest.len() && rest[k] == x;
                assert(a[k] == a[a.len() - 1]);
            }
        }
        let before = rest.to_set().intersect(b.to_set());
        if b.contains(x) {
            assert(b.to_set().contains(x));
            assert(a.to_set().intersect(b.to_set()) =~= before.insert(x));
            assert(!before.contains(x));
        } else {
            assert(!b.to_set().contains(x));
            assert(a.to_set().intersect(b.to_set()) =~= before);
        }
    }
}

/// The overlap of two callers' domains counts what a Jaccard coefficient counts: the shared
/// domains are those occurring on both sides, and the total is every domain occurring on
/// either side, each once (shared over union).
pub proof fn lemma_overlap_counts_distinct_domains(a: Seq<DomainView>, b: Seq<DomainView>)
    requires
        a.no_duplicates(),
        b.no_duplicates(),
    ensures
        shared_count(a, b) == a.to_set().intersect(b.to_set()).len(),
        union_count(a, b) == a.to_set().union(b.to_set()).len(),
{
    broadcast use vstd::seq_lib::seq_to_set_is_finite;

    lemma_shared_count_is_common_domains(a, b);
    lemma_shared_count_is_common_domains(b, a);
    a.unique_seq_to_set();
    b.unique_seq_to_set();
    vstd::set_lib::lemma_set_intersect_union_lens(a.to_set(), b.to_set());
    assert(b.to_set().intersect(a.to_set()) =~= a.to_set().intersect(b.to_set()));
    vstd::set_lib::lemma_len_intersect(b.to_set(), a.to_set());
}

} // verus!
