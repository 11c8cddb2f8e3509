//! The block decision: exact names, patterns, and the whitelist that
//! overrides both.

use vstd::prelude::*;
use crate::domain_set::{
    copy_of, empty_set, holds_name, insert_name, names_in, remove_name, DomainSet,
};
use crate::hosts::{
    entries_of, hosts_line_name, hosts_line_name_in, lemma_entries_push, line_end_in,
    line_entry_in, lines, lines_from, source_names,
};
use crate::pattern::{pattern_matches, Pattern};
use crate::text::{
    chars_of, is_ascii_text, lemma_ascii_lowercase, lowercase, string_of, to_lowercase,
};

verus! {

/// What a blocklist holds, as plain values. All names are in lowercase
/// form; the names blocked exactly stand without the root separator at
/// their end.
pub struct BlocklistView {
    /// The names blocked exactly.
    pub blocked: Set<Seq<char>>,
    /// The texts of the patterns, in the order they were added.
    pub patterns: Seq<Seq<char>>,
    /// The names that are never blocked.
    pub whitelist: Set<Seq<char>>,
}

impl BlocklistView {
    /// Whether one of the patterns matches the name.
    pub open spec fn pattern_hit(self, name: Seq<char>) -> bool {
        exists|i: int|
            0 <= i < self.patterns.len() && pattern_matches(#[trigger] self.patterns[i], name)
    }

    /// The decision for a domain, taken on its lowercase form: a whitelisted
    /// name is never blocked; any other is blocked where it is listed exactly
    /// or a pattern matches it.
    pub open spec fn blocks(self, domain: Seq<char>) -> bool {
        let name = lowercase(domain);
        !self.whitelist.contains(name) && (self.blocked.contains(name) || self.pattern_hit(name))
    }

    /// The same blocklist with the domain on the whitelist.
    pub open spec fn allow(self, domain: Seq<char>) -> BlocklistView {
        BlocklistView { whitelist: self.whitelist.insert(lowercase(domain)), ..self }
    }

    /// The same blocklist with the domain off the whitelist.
    pub open spec fn disallow(self, domain: Seq<char>) -> BlocklistView {
        BlocklistView { whitelist: self.whitelist.remove(lowercase(domain)), ..self }
    }

    /// The same blocklist with one more pattern.
    pub open spec fn with_pattern(self, pattern: Seq<char>) -> BlocklistView {
        BlocklistView { patterns: self.patterns.push(pattern), ..self }
    }
}

/// The blocked names that a list of fetched sources gives: the names of every
/// source text in it.
pub open spec fn names_of_sources<E>(sources: Seq<Result<String, E>>) -> Set<Seq<char>> {
    Set::new(
        |name: Seq<char>|
            exists|i: int|
                0 <= i < sources.len() && (#[trigger] sources[i]) is Ok && source_names(
                    sources[i]->Ok_0@,
                ).contains(name),
    )
}

/// Whether `index` is the place of the first source that could not be fetched.
pub open spec fn is_first_failure<E>(sources: Seq<Result<String, E>>, index: int) -> bool {
    &&& 0 <= index < sources.len()
    &&& sources[index] is Err
    &&& forall|k: int| 0 <= k < index ==> (#[trigger] sources[k]) is Ok
}

/// The data of the block decision.
#[derive(Debug)]
pub struct Blocklist {
    /// Names blocked exactly, in lowercase form and without the root
    /// separator at their end.
    blocked_domains: DomainSet,
    /// Patterns that block every name they match.
    blocked_patterns: Vec<Pattern>,
    /// Names that are never blocked, in lowercase form.
    whitelist: DomainSet,
}

impl View for Blocklist {
    type V = BlocklistView;

    closed spec fn view(&self) -> BlocklistView {
        BlocklistView {
            blocked: names_in(self.blocked_domains),
            patterns: self.blocked_patterns@.map_values(|pattern: Pattern| pattern@),
            whitelist: names_in(self.whitelist),
        }
    }
}

impl Clone for Blocklist {
    /// A copy that blocks what this blocklist blocks, and that can be
    /// changed without changing this one.
    fn clone(&self) -> (copy: Blocklist)
        ensures
            copy@ == self@,
    {
        let mut blocked_patterns: Vec<Pattern> = Vec::new();
        let mut i: usize = 0;
        while i < self.blocked_patterns.len()
            invariant
                0 <= i <= self.blocked_patterns.len(),
                blocked_patterns@.len() == i,
                forall|k: int| 0 <= k < i ==> (#[trigger] blocked_patterns@[k])@
                    == self.blocked_patterns@[k]@,
            decreases self.blocked_patterns.len() - i,
        {
            blocked_patterns.push(self.blocked_patterns[i].clone());
            i += 1;
        }
        let copy = Blocklist {
            blocked_domains: copy_of(&self.blocked_domains),
            blocked_patterns,
            whitelist: copy_of(&self.whitelist),
        };
        assert(copy@.patterns =~= self@.patterns);
        copy
    }
}

impl Blocklist {
    /// Builds a blocklist from the outcome of fetching each source. Where a
    /// source failed, nothing is built and the error of the first such source
    /// comes back. Otherwise the names of all source texts are blocked, and
    /// there are no patterns and no whitelist yet.
    pub fn new<E>(sources: Vec<Result<String, E>>) -> (built: Result<Blocklist, E>)
        ensures
            match built {
                Ok(list) => {
                    &&& forall|k: int| 0 <= k < sources@.len() ==> (#[trigger] sources@[k]) is Ok
                    &&& list@.blocked == names_of_sources(sources@)
                    &&& list@.patterns == Seq::<Seq<char>>::empty()
                    &&& list@.whitelist == Set::<Seq<char>>::empty()
                },
                Err(error) => exists|index: int|
                    is_first_failure(sources@, index) && #[trigger] sources@[index] == Err::<
                        String,
                        E,
                    >(error),
            },
    {
        let mut fetched = sources;
        let ghost given = fetched@;
        let mut i: usize = 0;
        while i < fetched.len()
            invariant
                0 <= i <= fetched.len(),
                fetched@ == given,
                sources@ == given,
                forall|k: int| 0 <= k < i ==> (#[trigger] given[k]) is Ok,
            decreases fetched.len() - i,
        {
            if fetched[i].is_err() {
                match fetched.remove(i) {
                    Err(error) => {
                        assert(is_first_failure(given, i as int));
                        assert(given[i as int] == Err::<String, E>(error));
                        return Err(error);
                    },
                    Ok(_) => {},
                }
            }
            i += 1;
        }
        let mut blocked_domains = empty_set();
        let mut done: usize = 0;
        assert(names_in(blocked_domains) =~= names_of_sources(given.take(0)));
        while done < fetched.len()
            invariant
                0 <= done <= fetched.len(),
                fetched@ == given,
                sources@ == given,
                forall|k: int| 0 <= k < given.len() ==> (#[trigger] given[k]) is Ok,
                names_in(blocked_domains) == names_of_sources(given.take(done as int)),
            decreases fetched.len() - done,
        {
            match &fetched[done] {
                Ok(content) => {
                    Self::parse_blocklist(content.as_str(), &mut blocked_domains);
                },
                Err(_) => {},
            }
            proof {
                lemma_sources_take(given, done as int);
            }
            done += 1;
        }
        assert(given.take(given.len() as int) =~= given);
        let list = Blocklist {
            blocked_domains,
            blocked_patterns: Vec::new(),
            whitelist: empty_set(),
        };
        assert(list@.patterns =~= Seq::<Seq<char>>::empty());
        Ok(list)
    }

    /// Reads one source text in the host-file convention and adds the names
    /// it gives to `domains`, each without the root separator at its end and
    /// in lowercase form: for every line that is neither blank nor a
    /// comment, its second word, unless that is a local name.
    fn parse_blocklist(content: &str, domains: &mut DomainSet)
        ensures
            names_in(*final(domains)) == names_in(*old(domains)).union(source_names(content@)),
    {
        let chars = chars_of(content);
        let ghost mut done: Seq<Seq<char>> = Seq::empty();
        let mut start: usize = 0;
        assert(entries_of(done) =~= Set::<Seq<char>>::empty());
        assert(names_in(*domains) =~= names_in(*old(domains)).union(entries_of(done)));
        loop
            invariant_except_break
                start <= chars.len(),
                chars@ == content@,
                lines(chars@) == done + lines_from(chars@, start as int),
                names_in(*domains) == names_in(*old(domains)).union(entries_of(done)),
            ensures
                chars@ == content@,
                names_in(*domains) == names_in(*old(domains)).union(entries_of(lines(chars@))),
            decreases chars.len() - start,
        {
            let end = line_end_in(&chars, start);
            let ghost line = chars@.subrange(start as int, end as int);
            match line_entry_in(&chars, start, end) {
                Some(name) => {
                    insert_name(domains, name);
                },
                None => {},
            }
            proof {
                lemma_entries_push(done, line);
                assert(names_in(*domains) =~= names_in(*old(domains)).union(
                    entries_of(done.push(line)),
                ));
            }
            if end >= chars.len() {
                assert(lines(chars@) =~= done.push(line));
                break;
            }
            proof {
                assert(lines_from(chars@, start as int) =~= seq![line] + lines_from(
                    chars@,
                    end + 1,
                ));
                assert(lines(chars@) =~= done.push(line) + lines_from(chars@, end + 1));
                done = done.push(line);
            }
            start = end + 1;
        }
    }

    /// Reads one line in the host-file convention: the second word of the
    /// line, unless the line has fewer than two words or the word is
    /// `localhost` or a name under it.
    pub fn parse_hosts_line(line: &str) -> (name: Option<String>)
        ensures
            match name {
                Some(found) => hosts_line_name(line@) == Some(found@),
                None => hosts_line_name(line@) is None,
            },
    {
        let chars = chars_of(line);
        assert(chars@.subrange(0, chars@.len() as int) =~= chars@);
        match hosts_line_name_in(&chars, 0, chars.len()) {
            Some((from, to)) => Some(string_of(&chars, from, to)),
            None => None,
        }
    }

    /// Whether a query for the domain is to be blocked.
    pub fn is_blocked(&self, domain: &str) -> (blocked: bool)
        ensures
            blocked == self@.blocks(domain@),
    {
        let name = to_lowercase(domain);
        if holds_name(&self.whitelist, name.as_str()) {
            return false;
        }
        if holds_name(&self.blocked_domains, name.as_str()) {
            return true;
        }
        let mut i: usize = 0;
        while i < self.blocked_patterns.len()
            invariant
                0 <= i <= self.blocked_patterns.len(),
                name@ == lowercase(domain@),
                !self@.whitelist.contains(name@),
                !self@.blocked.contains(name@),
                forall|k: int| 0 <= k < i ==> !pattern_matches(#[trigger] self@.patterns[k], name@),
            decreases self.blocked_patterns.len() - i,
        {
            assert(self@.patterns[i as int] == self.blocked_patterns@[i as int]@);
            if self.blocked_patterns[i].is_match(name.as_str()) {
                assert(self@.pattern_hit(name@));
                return true;
            }
            i += 1;
        }
        false
    }

    /// Adds a pattern after those already there.
    pub fn add_pattern(&mut self, pattern: Pattern)
        ensures
            final(self)@ == old(self)@.with_pattern(pattern@),
    {
        self.blocked_patterns.push(pattern);
        assert(self@.patterns =~= old(self)@.patterns.push(pattern@));
    }

    /// Puts a domain on the whitelist, in lowercase form.
    pub fn add_to_whitelist(&mut self, domain: String)
        ensures
            final(self)@ == old(self)@.allow(domain@),
    {
        let name = to_lowercase(domain.as_str());
        insert_name(&mut self.whitelist, name);
    }

    /// Takes a domain off the whitelist.
    pub fn remove_from_whitelist(&mut self, domain: &str)
        ensures
            final(self)@ == old(self)@.disallow(domain@),
    {
        let name = to_lowercase(domain);
        remove_name(&mut self.whitelist, name.as_str());
    }
}

/// A domain that is listed exactly or matched by a pattern, and is not on the
/// whitelist, is blocked.
pub proof fn listed_is_blocked(list: BlocklistView, domain: Seq<char>)
    requires
        list.blocked.contains(lowercase(domain)) || list.pattern_hit(lowercase(domain)),
        !list.whitelist.contains(lowercase(domain)),
    ensures
        list.blocks(domain),
{
}

/// Once a domain is put on the whitelist it is not blocked, whether it was
/// listed exactly, matched by a pattern, or both.
pub proof fn whitelist_overrides(list: BlocklistView, domain: Seq<char>)
    ensures
        !list.allow(domain).blocks(domain),
{
}

/// Putting one domain on the whitelist changes the decision for no domain
/// with another lowercase form.
pub proof fn whitelist_is_local(list: BlocklistView, domain: Seq<char>, other: Seq<char>)
    requires
        lowercase(other) != lowercase(domain),
    ensures
        list.allow(domain).blocks(other) == list.blocks(other),
        list.disallow(domain).blocks(other) == list.blocks(other),
{
    assert(list.allow(domain).pattern_hit(lowercase(other)) == list.pattern_hit(lowercase(other)));
    assert(list.disallow(domain).pattern_hit(lowercase(other)) == list.pattern_hit(
        lowercase(other),
    ));
}

/// A domain that is neither listed exactly nor matched by a pattern is not
/// blocked.
pub proof fn unlisted_is_allowed(list: BlocklistView, domain: Seq<char>)
    requires
        !list.blocked.contains(lowercase(domain)),
        !list.pattern_hit(lowercase(domain)),
    ensures
        !list.blocks(domain),
{
}

/// The decision does not depend on the case of the letters: two spellings
/// with the same lowercase form get the same decision.
pub proof fn decision_ignores_case(list: BlocklistView, domain: Seq<char>, other: Seq<char>)
    requires
        lowercase(domain) == lowercase(other),
    ensures
        list.blocks(domain) == list.blocks(other),
{
}

/// For a domain written in ASCII the decision is that for its lowercase
/// spelling: it makes no difference whether a caller lowers the case first.
pub proof fn lowercase_spelling_decides(list: BlocklistView, domain: Seq<char>)
    requires
        is_ascii_text(domain),
    ensures
        list.blocks(domain) == list.blocks(lowercase(domain)),
{
    lemma_ascii_lowercase(domain);
}

/// The names of the first `n + 1` sources are those of the first `n` and
/// those of the source at `n`.
proof fn lemma_sources_take<E>(sources: Seq<Result<String, E>>, n: int)
    requires
        0 <= n < sources.len(),
    ensures
        names_of_sources(sources.take(n + 1)) == match sources[n] {
            Ok(content) => names_of_sources(sources.take(n)).union(source_names(content@)),
            Err(_) => names_of_sources(sources.take(n)),
        },
{
    let less = sources.take(n);
    let more = sources.take(n + 1);
    let expected = match sources[n] {
        Ok(content) => names_of_sources(less).union(source_names(content@)),
        Err(_) => names_of_sources(less),
    };
    assert forall|name: Seq<char>| names_of_sources(more).contains(name) implies expected.contains(
        name,
    ) by {
        let i = choose|i: int|
            0 <= i < more.len() && (#[trigger] more[i]) is Ok && source_names(
                more[i]->Ok_0@,
            ).contains(name);
        if i < n {
            assert(less[i] is Ok && source_names(less[i]->Ok_0@).contains(name));
        }
    }
    assert forall|name: Seq<char>| expected.contains(name) implies names_of_sources(more).contains(
        name,
    ) by {
        if names_of_sources(less).contains(name) {
            let i = choose|i: int|
                0 <= i < less.len() && (#[trigger] less[i]) is Ok && source_names(
                    less[i]->Ok_0@,
                ).contains(name);
            assert(more[i] is Ok && source_names(more[i]->Ok_0@).contains(name));
        } else {
            assert(more[n] is Ok && source_names(more[n]->Ok_0@).contains(name));
        }
    }
    assert(names_of_sources(more) =~= expected);
}

} // verus!
