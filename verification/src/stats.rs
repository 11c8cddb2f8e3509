//! Counters of the queries seen, and how often each domain was blocked.

use vstd::prelude::*;
use crate::text::{lowercase, to_lowercase};

verus! {

/// How often one domain was blocked.
#[derive(Debug)]
pub struct DomainCount {
    /// The domain, in lowercase form.
    pub domain: String,
    /// The number of blocked queries for it.
    pub count: u64,
}

impl Clone for DomainCount {
    /// A copy with the same domain and the same count.
    fn clone(&self) -> (copy: DomainCount)
        ensures
            copy == *self,
    {
        DomainCount { domain: self.domain.clone(), count: self.count }
    }
}

/// The counters as plain values.
pub struct StatsView {
    /// All queries recorded.
    pub total: nat,
    /// The queries that were blocked.
    pub blocked: nat,
    /// The queries that were allowed.
    pub allowed: nat,
    /// For each domain that was blocked at least once, in lowercase form, how often.
    pub counts: Map<Seq<char>, nat>,
}

impl StatsView {
    /// Nothing recorded yet.
    pub open spec fn empty() -> StatsView {
        StatsView { total: 0, blocked: 0, allowed: 0, counts: Map::empty() }
    }

    /// How often the name, given in lowercase form, was blocked.
    pub open spec fn count_of(self, name: Seq<char>) -> nat {
        if self.counts.dom().contains(name) {
            self.counts[name]
        } else {
            0
        }
    }

    /// The counters after one more blocked query for the domain.
    pub open spec fn record_blocked(self, domain: Seq<char>) -> StatsView {
        let name = lowercase(domain);
        StatsView {
            total: self.total + 1,
            blocked: self.blocked + 1,
            allowed: self.allowed,
            counts: self.counts.insert(name, self.count_of(name) + 1),
        }
    }

    /// The counters after one more allowed query.
    pub open spec fn record_allowed(self) -> StatsView {
        StatsView { total: self.total + 1, allowed: self.allowed + 1, ..self }
    }

    /// The share of blocked queries in all queries, in whole percent, rounded
    /// down; 0 where nothing was recorded.
    pub open spec fn block_percentage(self) -> nat {
        if self.total == 0 {
            0
        } else {
            (100 * self.blocked) / self.total
        }
    }
}

/// The table that a list of counts stands for: from each domain to its count.
pub open spec fn table(entries: Seq<DomainCount>) -> Map<Seq<char>, nat>
    decreases entries.len(),
{
    if entries.len() == 0 {
        Map::empty()
    } else {
        table(entries.drop_last()).insert(entries.last().domain@, entries.last().count as nat)
    }
}

/// The sum of the counts of a list.
pub open spec fn tally(entries: Seq<DomainCount>) -> nat
    decreases entries.len(),
{
    if entries.len() == 0 {
        0
    } else {
        tally(entries.drop_last()) + entries.last().count as nat
    }
}

/// The domains of a list of counts, in the order of the list.
pub open spec fn domains_of(entries: Seq<DomainCount>) -> Seq<Seq<char>> {
    Seq::new(entries.len(), |i: int| entries[i].domain@)
}

/// Whether no domain occurs twice in a list of counts.
pub open spec fn distinct_domains(entries: Seq<DomainCount>) -> bool {
    forall|i: int, j: int|
        0 <= i < j < entries.len() ==> (#[trigger] entries[i]).domain@ != (
        #[trigger] entries[j]).domain@
}

/// Whether the entry at `i` comes before the entry at `j` in the ranking of
/// a table: the higher count first, and of two equal counts the entry that
/// stands first in the table.
pub open spec fn ranks_before(entries: Seq<DomainCount>, i: int, j: int) -> bool {
    entries[i].count > entries[j].count || (entries[i].count == entries[j].count && i < j)
}

/// Whether `places` gives, best first, the places of the `limit` best of
/// the first `upto` entries, or of all of them where they are fewer.
pub open spec fn ranks_first(
    entries: Seq<DomainCount>,
    upto: int,
    limit: int,
    places: Seq<int>,
) -> bool {
    &&& places.len() == if limit < upto {
        limit
    } else {
        upto
    }
    &&& forall|a: int| 0 <= a < places.len() ==> 0 <= #[trigger] places[a] < upto
    &&& forall|a: int, b: int|
        0 <= a < b < places.len() ==> ranks_before(
            entries,
            #[trigger] places[a],
            #[trigger] places[b],
        )
    &&& forall|a: int, k: int|
        #![trigger places[a], places.contains(k)]
        0 <= a < places.len() && 0 <= k < upto && !places.contains(k) ==> ranks_before(
            entries,
            places[a],
            k,
        )
}

/// Whether `top` holds the `limit` most blocked domains of a table with
/// their counts, or all of them where they are fewer: the most blocked
/// first, and of two domains with equal counts the one that stands first in
/// the table.
pub open spec fn is_top(entries: Seq<DomainCount>, limit: int, top: Seq<DomainCount>) -> bool {
    exists|places: Seq<int>|
        {
            &&& #[trigger] ranks_first(entries, entries.len() as int, limit, places)
            &&& top.len() == places.len()
            &&& forall|a: int| 0 <= a < top.len() ==> #[trigger] top[a] == entries[places[a]]
        }
}

/// Statistics of the queries seen.
#[derive(Debug)]
pub struct Stats {
    /// Total DNS queries recorded.
    pub total_queries: u64,
    /// Number of queries that were blocked.
    pub blocked_queries: u64,
    /// Number of queries that were allowed.
    pub allowed_queries: u64,
    /// How often each blocked domain was blocked, one entry for each domain.
    pub top_blocked_domains: Vec<DomainCount>,
}

impl View for Stats {
    type V = StatsView;

    open spec fn view(&self) -> StatsView {
        StatsView {
            total: self.total_queries as nat,
            blocked: self.blocked_queries as nat,
            allowed: self.allowed_queries as nat,
            counts: table(self.top_blocked_domains@),
        }
    }
}

impl Clone for Stats {
    /// A snapshot: a copy with the same counters and the same table, which
    /// later recording does not change.
    fn clone(&self) -> (copy: Stats)
        ensures
            copy.total_queries == self.total_queries,
            copy.blocked_queries == self.blocked_queries,
            copy.allowed_queries == self.allowed_queries,
            copy.top_blocked_domains@ == self.top_blocked_domains@,
            copy@ == self@,
            copy.wf() == self.wf(),
    {
        let mut table: Vec<DomainCount> = Vec::new();
        let mut i: usize = 0;
        while i < self.top_blocked_domains.len()
            invariant
                0 <= i <= self.top_blocked_domains.len(),
                table@ == self.top_blocked_domains@.take(i as int),
            decreases self.top_blocked_domains.len() - i,
        {
            table.push(self.top_blocked_domains[i].clone());
            assert(table@ =~= self.top_blocked_domains@.take(i + 1));
            i += 1;
        }
        assert(table@ =~= self.top_blocked_domains@);
        Stats {
            total_queries: self.total_queries,
            blocked_queries: self.blocked_queries,
            allowed_queries: self.allowed_queries,
            top_blocked_domains: table,
        }
    }
}

impl Stats {
    /// What holds of the counters at all times: every query is either blocked
    /// or allowed, no domain has two entries, and the entries account for
    /// every blocked query.
    pub open spec fn wf(&self) -> bool {
        &&& self.total_queries == self.blocked_queries + self.allowed_queries
        &&& distinct_domains(self.top_blocked_domains@)
        &&& tally(self.top_blocked_domains@) == self.blocked_queries
    }

    /// Statistics with nothing recorded.
    pub fn new() -> (stats: Stats)
        ensures
            stats.wf(),
            stats@ == StatsView::empty(),
    {
        Stats {
            total_queries: 0,
            blocked_queries: 0,
            allowed_queries: 0,
            top_blocked_domains: Vec::new(),
        }
    }

    /// Whether the statistics are as `wf` asks: every query blocked or
    /// allowed, no domain with two entries, the entries accounting for every
    /// blocked query. Statistics that only this library has written are; a
    /// caller that has written the fields itself can test them here.
    pub fn is_consistent(&self) -> (consistent: bool)
        ensures
            consistent == self.wf(),
    {
        let ghost entries = self.top_blocked_domains@;
        if self.total_queries as u128 != self.blocked_queries as u128
            + self.allowed_queries as u128 {
            return false;
        }
        let mut sum: u128 = 0;
        let mut i: usize = 0;
        while i < self.top_blocked_domains.len()
            invariant
                entries == self.top_blocked_domains@,
                0 <= i <= entries.len(),
                sum == tally(entries.take(i as int)),
                sum <= self.blocked_queries,
            decreases entries.len() - i,
        {
            assert(entries.take(i + 1).drop_last() =~= entries.take(i as int));
            sum = sum + self.top_blocked_domains[i].count as u128;
            if sum > self.blocked_queries as u128 {
                proof {
                    lemma_tally_grows(entries, i + 1);
                }
                return false;
            }
            i += 1;
        }
        assert(entries.take(i as int) =~= entries);
        if sum != self.blocked_queries as u128 {
            return false;
        }
        let mut first: usize = 0;
        while first < self.top_blocked_domains.len()
            invariant
                entries == self.top_blocked_domains@,
                0 <= first <= entries.len(),
                forall|a: int, b: int|
                    0 <= a < b < entries.len() && a < first ==> (#[trigger] entries[a]).domain@
                        != (#[trigger] entries[b]).domain@,
            decreases entries.len() - first,
        {
            let mut second: usize = first + 1;
            while second < self.top_blocked_domains.len()
                invariant
                    entries == self.top_blocked_domains@,
                    0 <= first < second <= entries.len(),
                    forall|b: int|
                        first < b < second ==> entries[first as int].domain@ != (
                        #[trigger] entries[b]).domain@,
                decreases entries.len() - second,
            {
                if self.top_blocked_domains[first].domain == self.top_blocked_domains[second].domain {
                    assert(entries[first as int].domain@ == entries[second as int].domain@);
                    return false;
                }
                second += 1;
            }
            first += 1;
        }
        true
    }

    /// Where the entry of the name stands in the table, if it has one.
    fn position_of(&self, name: &String) -> (place: Option<usize>)
        ensures
            match place {
                Some(i) => i < self.top_blocked_domains.len()
                    && self.top_blocked_domains[i as int].domain@ == name@,
                None => forall|k: int|
                    0 <= k < self.top_blocked_domains.len() ==> (
                    #[trigger] self.top_blocked_domains[k]).domain@ != name@,
            },
    {
        let mut i: usize = 0;
        while i < self.top_blocked_domains.len()
            invariant
                0 <= i <= self.top_blocked_domains.len(),
                forall|k: int|
                    0 <= k < i ==> (#[trigger] self.top_blocked_domains[k]).domain@ != name@,
            decreases self.top_blocked_domains.len() - i,
        {
            if self.top_blocked_domains[i].domain == *name {
                return Some(i);
            }
            i += 1;
        }
        None
    }

    /// Records a blocked query for the domain: the total and the number of
    /// blocked queries grow by one, and so does the count of the domain,
    /// which is kept under its lowercase form. A domain that was blocked
    /// before keeps its place in the table; a new one goes to the end.
    pub fn record_blocked(&mut self, domain: &str)
        requires
            old(self).wf(),
            old(self).total_queries < u64::MAX,
        ensures
            final(self).wf(),
            final(self)@ == old(self)@.record_blocked(domain@),
            domains_of(final(self).top_blocked_domains@) == if domains_of(
                old(self).top_blocked_domains@,
            ).contains(lowercase(domain@)) {
                domains_of(old(self).top_blocked_domains@)
            } else {
                domains_of(old(self).top_blocked_domains@).push(lowercase(domain@))
            },
    {
        let name = to_lowercase(domain);
        let ghost entries = self.top_blocked_domains@;
        self.total_queries += 1;
        self.blocked_queries += 1;
        match self.position_of(&name) {
            Some(i) => {
                let count = self.top_blocked_domains[i].count;
                proof {
                    lemma_count_in_tally(entries, i as int);
                    lemma_table_holds(entries, i as int);
                }
                let raised = DomainCount { domain: name, count: count + 1 };
                self.top_blocked_domains.set(i, raised);
                proof {
                    lemma_raise(entries, i as int, raised);
                    assert(domains_of(entries)[i as int] == lowercase(domain@));
                    assert(domains_of(self.top_blocked_domains@) =~= domains_of(entries));
                }
            },
            None => {
                proof {
                    lemma_table_domain(entries, name@);
                    if domains_of(entries).contains(name@) {
                        let k = choose|k: int|
                            0 <= k < domains_of(entries).len() && domains_of(entries)[k] == name@;
                        assert(entries[k].domain@ == name@);
                    }
                }
                self.top_blocked_domains.push(DomainCount { domain: name, count: 1 });
                assert(self.top_blocked_domains@.drop_last() =~= entries);
                assert(domains_of(self.top_blocked_domains@) =~= domains_of(entries).push(
                    lowercase(domain@),
                ));
            },
        }
    }

    /// Records an allowed query: the total and the number of allowed queries
    /// grow by one, and the table stays as it is.
    pub fn record_allowed(&mut self)
        requires
            old(self).wf(),
            old(self).total_queries < u64::MAX,
        ensures
            final(self).wf(),
            final(self)@ == old(self)@.record_allowed(),
            final(self).top_blocked_domains@ == old(self).top_blocked_domains@,
    {
        self.total_queries += 1;
        self.allowed_queries += 1;
    }

    /// The share of blocked queries in all queries, in whole percent, rounded
    /// down; 0 where nothing was recorded.
    pub fn block_percentage(&self) -> (percent: u64)
        requires
            self.wf(),
        ensures
            percent == self@.block_percentage(),
            percent <= 100,
    {
        if self.total_queries == 0 {
            0
        } else {
            let blocked = self.blocked_queries as u128;
            let total = self.total_queries as u128;
            assert((100 * blocked) as int / (total as int) <= 100) by (nonlinear_arith)
                requires
                    0 <= blocked <= total,
                    total > 0,
            ;
            (100 * blocked / total) as u64
        }
    }

    /// The `n` most blocked domains with their counts, the most blocked
    /// first; all domains where fewer than `n` were ever blocked.
    pub fn top_blocked(&self, n: usize) -> (top: Vec<DomainCount>)
        ensures
            is_top(self.top_blocked_domains@, n as int, top@),
    {
        let ghost entries = self.top_blocked_domains@;
        let mut top: Vec<DomainCount> = Vec::new();
        let ghost mut places: Seq<int> = Seq::empty();
        let mut i: usize = 0;
        while i < self.top_blocked_domains.len()
            invariant
                entries == self.top_blocked_domains@,
                0 <= i <= entries.len(),
                ranks_first(entries, i as int, n as int, places),
                places.len() < n ==> forall|k: int| 0 <= k < i ==> places.contains(k),
                top@.len() == places.len(),
                forall|a: int| 0 <= a < top@.len() ==> #[trigger] top@[a] == entries[places[a]],
            decreases entries.len() - i,
        {
            let count = self.top_blocked_domains[i].count;
            let mut at: usize = 0;
            while at < top.len() && top[at].count >= count
                invariant
                    0 <= at <= top@.len(),
                    top@.len() == places.len(),
                    forall|a: int| 0 <= a < top@.len() ==> #[trigger] top@[a] == entries[places[a]],
                    forall|a: int| 0 <= a < at ==> entries[#[trigger] places[a]].count >= count,
                decreases top@.len() - at,
            {
                at += 1;
            }
            if at < n {
                proof {
                    lemma_rank_insert(entries, i as int, n as int, places, at as int);
                    places = put_in(places, at as int, i as int, n as int);
                }
                top.insert(at, self.top_blocked_domains[i].clone());
                if top.len() > n {
                    top.pop();
                }
            } else {
                proof {
                    lemma_rank_skip(entries, i as int, n as int, places);
                }
            }
            i += 1;
        }
        top
    }

    /// How often the domain was blocked, whatever the case of its letters.
    pub fn blocked_count(&self, domain: &str) -> (count: u64)
        requires
            self.wf(),
        ensures
            count == self@.count_of(lowercase(domain@)),
    {
        let name = to_lowercase(domain);
        match self.position_of(&name) {
            Some(i) => {
                proof {
                    lemma_table_holds(self.top_blocked_domains@, i as int);
                }
                self.top_blocked_domains[i].count
            },
            None => {
                proof {
                    lemma_table_domain(self.top_blocked_domains@, name@);
                }
                0
            },
        }
    }
}

/// What is recorded of one query.
pub enum Recorded {
    /// The query was blocked; it asked for this domain.
    Blocked(Seq<char>),
    /// The query was allowed.
    Allowed,
}

/// The counters after one more query.
pub open spec fn record(before: StatsView, query: Recorded) -> StatsView {
    match query {
        Recorded::Blocked(domain) => before.record_blocked(domain),
        Recorded::Allowed => before.record_allowed(),
    }
}

/// The counters after recording a run of queries, one after the other,
/// starting with nothing recorded.
pub open spec fn after_all(run: Seq<Recorded>) -> StatsView
    decreases run.len(),
{
    if run.len() == 0 {
        StatsView::empty()
    } else {
        record(after_all(run.drop_last()), run.last())
    }
}

/// How many queries of a run were blocked.
pub open spec fn blocked_in(run: Seq<Recorded>) -> nat
    decreases run.len(),
{
    if run.len() == 0 {
        0
    } else if run.last() is Blocked {
        blocked_in(run.drop_last()) + 1
    } else {
        blocked_in(run.drop_last())
    }
}

/// How many queries of a run were allowed.
pub open spec fn allowed_in(run: Seq<Recorded>) -> nat
    decreases run.len(),
{
    if run.len() == 0 {
        0
    } else if run.last() is Allowed {
        allowed_in(run.drop_last()) + 1
    } else {
        allowed_in(run.drop_last())
    }
}

/// How many queries of a run were blocked for a domain with the lowercase
/// form `name`.
pub open spec fn blocked_for(run: Seq<Recorded>, name: Seq<char>) -> nat
    decreases run.len(),
{
    if run.len() == 0 {
        0
    } else {
        match run.last() {
            Recorded::Blocked(domain) => if lowercase(domain) == name {
                blocked_for(run.drop_last(), name) + 1
            } else {
                blocked_for(run.drop_last(), name)
            },
            Recorded::Allowed => blocked_for(run.drop_last(), name),
        }
    }
}

/// After any run of queries, in whatever order they were recorded, the
/// counters give the number of blocked queries, the number of allowed
/// queries and their sum, and the percentage is that of the blocked queries
/// in the run, or 0 for an empty run.
pub proof fn counters_are_exact(run: Seq<Recorded>)
    ensures
        after_all(run).blocked == blocked_in(run),
        after_all(run).allowed == allowed_in(run),
        after_all(run).total == blocked_in(run) + allowed_in(run),
        after_all(run).total == run.len(),
        after_all(run).block_percentage() == if run.len() == 0 {
            0
        } else {
            (100 * blocked_in(run)) / (blocked_in(run) + allowed_in(run))
        },
    decreases run.len(),
{
    if run.len() > 0 {
        counters_are_exact(run.drop_last());
    }
}

/// After any run of queries the count of a domain is the number of queries
/// of the run that were blocked for it: no more and no fewer.
pub proof fn count_is_exact(run: Seq<Recorded>, name: Seq<char>)
    ensures
        after_all(run).count_of(name) == blocked_for(run, name),
    decreases run.len(),
{
    if run.len() > 0 {
        count_is_exact(run.drop_last(), name);
    }
}

/// Two queries leave the same counters in whichever order they are
/// recorded.
pub proof fn order_does_not_matter(before: StatsView, query: Recorded, other: Recorded)
    ensures
        record(record(before, query), other) == record(record(before, other), query),
{
    let one = record(record(before, query), other);
    let two = record(record(before, other), query);
    assert(one.counts =~= two.counts);
}

/// A run leaves the counters that it leaves with one of its queries moved to
/// the end.
proof fn lemma_moved_last(run: Seq<Recorded>, j: int)
    requires
        0 <= j < run.len(),
    ensures
        after_all(run) == record(after_all(run.remove(j)), run[j]),
    decreases run.len(),
{
    let last = run.len() - 1;
    if j == last {
        assert(run.remove(j) =~= run.drop_last());
    } else {
        let front = run.drop_last();
        lemma_moved_last(front, j);
        order_does_not_matter(after_all(front.remove(j)), run[j], run[last]);
        assert(run.remove(j).drop_last() =~= front.remove(j));
        assert(run.remove(j).last() == run[last]);
    }
}

/// The counters after a run depend on which queries were recorded, not on
/// the order they came in: two runs of the same queries, however
/// interleaved, leave the same counters.
pub proof fn any_order_gives_same_counters(run: Seq<Recorded>, other: Seq<Recorded>)
    requires
        run.to_multiset() == other.to_multiset(),
    ensures
        after_all(run) == after_all(other),
    decreases run.len(),
{
    vstd::seq_lib::to_multiset_len(run);
    vstd::seq_lib::to_multiset_len(other);
    if run.len() > 0 {
        let last = run.len() - 1;
        let query = run[last];
        assert(run.contains(query));
        vstd::seq_lib::to_multiset_contains(run, query);
        vstd::seq_lib::to_multiset_contains(other, query);
        let j = choose|j: int| 0 <= j < other.len() && other[j] == query;
        vstd::seq_lib::to_multiset_remove(run, last);
        vstd::seq_lib::to_multiset_remove(other, j);
        assert(run.remove(last) =~= run.drop_last());
        any_order_gives_same_counters(run.drop_last(), other.remove(j));
        lemma_moved_last(other, j);
    }
}

/// Recording a query lowers no count and no counter.
pub proof fn counts_never_fall(before: StatsView, query: Recorded, name: Seq<char>)
    ensures
        record(before, query).count_of(name) >= before.count_of(name),
        record(before, query).total > before.total,
        record(before, query).blocked >= before.blocked,
        record(before, query).allowed >= before.allowed,
{
}

/// A table has one ranking only: the most blocked domains of a table are
/// the same however they were found.
pub proof fn top_is_unique(
    entries: Seq<DomainCount>,
    limit: int,
    top: Seq<DomainCount>,
    other: Seq<DomainCount>,
)
    requires
        is_top(entries, limit, top),
        is_top(entries, limit, other),
    ensures
        top == other,
{
    let first = choose|places: Seq<int>|
        {
            &&& #[trigger] ranks_first(entries, entries.len() as int, limit, places)
            &&& top.len() == places.len()
            &&& forall|a: int| 0 <= a < top.len() ==> #[trigger] top[a] == entries[places[a]]
        };
    let second = choose|places: Seq<int>|
        {
            &&& #[trigger] ranks_first(entries, entries.len() as int, limit, places)
            &&& other.len() == places.len()
            &&& forall|a: int| 0 <= a < other.len() ==> #[trigger] other[a] == entries[places[a]]
        };
    assert forall|a: int| 0 <= a < top.len() implies top[a] == other[a] by {
        lemma_same_place(entries, limit, first, second, a);
    }
    assert(top =~= other);
}

/// Two rankings of one table hold the same place at every position.
proof fn lemma_same_place(
    entries: Seq<DomainCount>,
    limit: int,
    first: Seq<int>,
    second: Seq<int>,
    a: int,
)
    requires
        ranks_first(entries, entries.len() as int, limit, first),
        ranks_first(entries, entries.len() as int, limit, second),
        0 <= a < first.len(),
    ensures
        first[a] == second[a],
    decreases a,
{
    let x = first[a];
    let y = second[a];
    if x != y {
        if ranks_before(entries, x, y) {
            // What comes before `y` stands before it in the second ranking.
            assert(second.contains(x)) by {
                if !second.contains(x) {
                    assert(ranks_before(entries, second[a], x));
                }
            }
            let b = choose|b: int| 0 <= b < second.len() && second[b] == x;
            if b > a {
                assert(ranks_before(entries, second[a], second[b]));
            }
            lemma_same_place(entries, limit, first, second, b);
            assert(ranks_before(entries, first[b], first[a]));
        } else {
            assert(first.contains(y)) by {
                if !first.contains(y) {
                    assert(ranks_before(entries, first[a], y));
                }
            }
            let b = choose|b: int| 0 <= b < first.len() && first[b] == y;
            if b > a {
                assert(ranks_before(entries, first[a], first[b]));
            }
            lemma_same_place(entries, limit, first, second, b);
            assert(ranks_before(entries, second[b], second[a]));
        }
    }
}

/// The ranking of the first `i` entries stays that of the first `i + 1`
/// where it is full and the entry at `i` has no higher count than any in it.
proof fn lemma_rank_skip(entries: Seq<DomainCount>, i: int, limit: int, places: Seq<int>)
    requires
        0 <= i < entries.len(),
        ranks_first(entries, i, limit, places),
        places.len() == limit,
        forall|a: int| 0 <= a < places.len() ==> entries[#[trigger] places[a]].count >= entries[i].count,
    ensures
        ranks_first(entries, i + 1, limit, places),
{
    assert forall|a: int, k: int|
        #![trigger places[a], places.contains(k)]
        0 <= a < places.len() && 0 <= k < i + 1 && !places.contains(k) implies ranks_before(
        entries,
        places[a],
        k,
    ) by {
        if k == i {
            assert(0 <= places[a] < i);
        }
    }
}

/// A ranking with the place `i` put in at `at`, and the last place dropped
/// where that makes more than `limit`.
pub open spec fn put_in(places: Seq<int>, at: int, i: int, limit: int) -> Seq<int> {
    if places.len() + 1 > limit {
        places.insert(at, i).drop_last()
    } else {
        places.insert(at, i)
    }
}

/// The ranking of the first `i + 1` entries is that of the first `i` with
/// the entry at `i` put in after all entries with an equal or higher count,
/// and the last place dropped where that makes one too many.
proof fn lemma_rank_insert(
    entries: Seq<DomainCount>,
    i: int,
    limit: int,
    places: Seq<int>,
    at: int,
)
    requires
        0 <= i < entries.len(),
        ranks_first(entries, i, limit, places),
        places.len() < limit ==> forall|k: int| 0 <= k < i ==> places.contains(k),
        0 <= at <= places.len(),
        at < limit,
        forall|a: int| 0 <= a < at ==> entries[#[trigger] places[a]].count >= entries[i].count,
        at < places.len() ==> entries[places[at]].count < entries[i].count,
    ensures
        ({
            let kept = put_in(places, at, i, limit);
            &&& ranks_first(entries, i + 1, limit, kept)
            &&& kept.len() < limit ==> forall|k: int| 0 <= k < i + 1 ==> kept.contains(k)
            &&& forall|a: int| 0 <= a < kept.len() ==> (#[trigger] kept[a]) == if a < at {
                places[a]
            } else if a == at {
                i
            } else {
                places[a - 1]
            }
        }),
{
    let more = places.insert(at, i);
    let kept = put_in(places, at, i, limit);
    assert forall|a: int| 0 <= a < more.len() implies (#[trigger] more[a]) == if a < at {
        places[a]
    } else if a == at {
        i
    } else {
        places[a - 1]
    } by {}
    // Every entry from `at` on has a lower count than the new one.
    assert forall|a: int| at <= a < places.len() implies entries[#[trigger] places[a]].count
        < entries[i].count by {
        if a > at {
            assert(ranks_before(entries, places[at], places[a]));
        }
    }
    assert forall|a: int, b: int| 0 <= a < b < more.len() implies ranks_before(
        entries,
        #[trigger] more[a],
        #[trigger] more[b],
    ) by {
        if a < at && b > at {
            assert(ranks_before(entries, places[a], places[b - 1]));
        } else if a > at {
            assert(ranks_before(entries, places[a - 1], places[b - 1]));
        } else if b < at {
            assert(ranks_before(entries, places[a], places[b]));
        } else if a == at {
            assert(entries[places[b - 1]].count < entries[i].count);
        } else {
            assert(0 <= places[a] < i);
        }
    }
    assert forall|k: int| places.contains(k) implies more.contains(k) by {
        let a = choose|a: int| 0 <= a < places.len() && places[a] == k;
        if a < at {
            assert(more[a] == k);
        } else {
            assert(more[a + 1] == k);
        }
    }
    assert(more[at] == i);
    assert(more.contains(i));
    assert forall|a: int, k: int|
        #![trigger more[a], more.contains(k)]
        0 <= a < more.len() && 0 <= k < i + 1 && !more.contains(k) implies ranks_before(
        entries,
        more[a],
        k,
    ) by {
        assert(!places.contains(k));
        assert(k != i);
        // An entry was left out before, so the ranking was full.
        assert(places.len() == limit);
        assert(at < places.len());
        assert(ranks_before(entries, places[at], k));
        if a < at {
            assert(ranks_before(entries, places[a], k));
        } else if a > at {
            assert(ranks_before(entries, places[a - 1], k));
        }
    }
    if more.len() > limit {
        let last = more.len() - 1;
        assert forall|a: int, k: int|
            #![trigger kept[a], kept.contains(k)]
            0 <= a < kept.len() && 0 <= k < i + 1 && !kept.contains(k) implies ranks_before(
            entries,
            kept[a],
            k,
        ) by {
            assert(kept[a] == more[a]);
            if more.contains(k) {
                let b = choose|b: int| 0 <= b < more.len() && more[b] == k;
                if b < last {
                    assert(kept[b] == k);
                }
                assert(ranks_before(entries, more[a], more[b]));
            }
        }
        assert forall|a: int, b: int| 0 <= a < b < kept.len() implies ranks_before(
            entries,
            #[trigger] kept[a],
            #[trigger] kept[b],
        ) by {
            assert(ranks_before(entries, more[a], more[b]));
        }
        assert forall|a: int| 0 <= a < kept.len() implies 0 <= #[trigger] kept[a] < i + 1 by {
            assert(kept[a] == more[a]);
        }
    } else {
        if kept.len() < limit {
            assert forall|k: int| 0 <= k < i + 1 implies kept.contains(k) by {
                if k < i {
                    assert(places.contains(k));
                }
            }
        }
    }
}

/// The table has an entry for a name exactly where the list has one.
pub proof fn lemma_table_domain(entries: Seq<DomainCount>, name: Seq<char>)
    ensures
        table(entries).dom().contains(name) <==> exists|i: int|
            0 <= i < entries.len() && (#[trigger] entries[i]).domain@ == name,
    decreases entries.len(),
{
    if entries.len() > 0 {
        let rest = entries.drop_last();
        lemma_table_domain(rest, name);
        if table(entries).dom().contains(name) {
            if entries.last().domain@ == name {
                assert(entries[entries.len() - 1].domain@ == name);
            } else {
                let i = choose|i: int| 0 <= i < rest.len() && (#[trigger] rest[i]).domain@ == name;
                assert(entries[i].domain@ == name);
            }
        }
        if exists|i: int| 0 <= i < entries.len() && (#[trigger] entries[i]).domain@ == name {
            let i = choose|i: int|
                0 <= i < entries.len() && (#[trigger] entries[i]).domain@ == name;
            if i < rest.len() {
                assert(rest[i].domain@ == name);
            }
        }
    }
}

/// The counts of the first entries of a list sum to no more than those of
/// the whole list.
proof fn lemma_tally_grows(entries: Seq<DomainCount>, n: int)
    requires
        0 <= n <= entries.len(),
    ensures
        tally(entries.take(n)) <= tally(entries),
    decreases entries.len(),
{
    if n < entries.len() {
        lemma_tally_grows(entries.drop_last(), n);
        assert(entries.drop_last().take(n) =~= entries.take(n));
    } else {
        assert(entries.take(n) =~= entries);
    }
}

/// Where no domain occurs twice in a list, none does in the list without its
/// last entry.
proof fn lemma_distinct_drop_last(entries: Seq<DomainCount>)
    requires
        distinct_domains(entries),
        entries.len() > 0,
    ensures
        distinct_domains(entries.drop_last()),
{
    let rest = entries.drop_last();
    assert forall|a: int, b: int| 0 <= a < b < rest.len() implies (#[trigger] rest[a]).domain@ != (
    #[trigger] rest[b]).domain@ by {
        assert(entries[a].domain@ != entries[b].domain@);
    }
}

/// Where no domain occurs twice, the table gives each entry's count for its domain.
pub proof fn lemma_table_holds(entries: Seq<DomainCount>, i: int)
    requires
        distinct_domains(entries),
        0 <= i < entries.len(),
    ensures
        table(entries).dom().contains(entries[i].domain@),
        table(entries)[entries[i].domain@] == entries[i].count,
    decreases entries.len(),
{
    let rest = entries.drop_last();
    if i < entries.len() - 1 {
        lemma_distinct_drop_last(entries);
        lemma_table_holds(rest, i);
        assert(entries[i].domain@ != entries[entries.len() - 1].domain@);
        assert(rest[i] == entries[i]);
    }
}

/// No count is larger than the sum of all counts.
pub proof fn lemma_count_in_tally(entries: Seq<DomainCount>, i: int)
    requires
        0 <= i < entries.len(),
    ensures
        entries[i].count <= tally(entries),
    decreases entries.len(),
{
    if i < entries.len() - 1 {
        lemma_count_in_tally(entries.drop_last(), i);
    }
}

/// Replacing the entry at `i` by one for the same domain keeps the domains
/// distinct, moves the sum by the difference of the counts, and changes the
/// table at that domain only.
proof fn lemma_raise(entries: Seq<DomainCount>, i: int, raised: DomainCount)
    requires
        distinct_domains(entries),
        0 <= i < entries.len(),
        raised.domain@ == entries[i].domain@,
    ensures
        distinct_domains(entries.update(i, raised)),
        tally(entries.update(i, raised)) == tally(entries) - entries[i].count + raised.count,
        table(entries.update(i, raised)) == table(entries).insert(
            raised.domain@,
            raised.count as nat,
        ),
    decreases entries.len(),
{
    let changed = entries.update(i, raised);
    assert(distinct_domains(changed)) by {
        assert forall|a: int, b: int| 0 <= a < b < changed.len() implies (
        #[trigger] changed[a]).domain@ != (#[trigger] changed[b]).domain@ by {
            assert(entries[a].domain@ != entries[b].domain@);
        }
    }
    let rest = entries.drop_last();
    if i == entries.len() - 1 {
        assert(changed.drop_last() =~= rest);
        assert(table(changed) =~= table(entries).insert(raised.domain@, raised.count as nat));
    } else {
        lemma_distinct_drop_last(entries);
        lemma_raise(rest, i, raised);
        assert(changed.drop_last() =~= rest.update(i, raised));
        assert(entries[i].domain@ != entries[entries.len() - 1].domain@);
        assert(rest[i] == entries[i]);
        assert(table(changed) =~= table(entries).insert(raised.domain@, raised.count as nat));
    }
}

} // verus!
