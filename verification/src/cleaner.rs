//! Building the removal target set: the set of URLs that a previously
//! persisted failure report slates for deletion from the bookmark tree.

use vstd::prelude::*;

verus! {

/// A set of URLs slated for removal, deduplicated. Its mathematical image
/// is the set of the URLs' character sequences.
pub struct TargetSet {
    urls: Vec<String>,
}

impl View for TargetSet {
    type V = Set<Seq<char>>;

    closed spec fn view(&self) -> Set<Seq<char>> {
        Set::new(
            |u: Seq<char>| exists|i: int| 0 <= i < self.urls@.len() && (#[trigger] self.urls@[i])@ == u,
        )
    }
}

impl TargetSet {
    /// The empty target set.
    pub fn new() -> (r: TargetSet)
        ensures
            r@ == Set::<Seq<char>>::empty(),
    {
        let r = TargetSet { urls: Vec::new() };
        proof {
            assert(r@ =~= Set::<Seq<char>>::empty());
        }
        r
    }

    /// Whether `url` is slated for removal.
    pub fn contains(&self, url: &String) -> (r: bool)
        ensures
            r == self@.contains(url@),
    {
        let n = self.urls.len();
        let mut i: usize = 0;
        while i < n
            invariant
                n == self.urls@.len(),
                0 <= i <= n,
                forall|j: int| 0 <= j < i ==> (#[trigger] self.urls@[j])@ != url@,
            decreases n - i,
        {
            if self.urls[i].eq(url) {
                proof {
                    assert((self.urls@[i as int])@ == url@);
                }
                return true;
            }
            i += 1;
        }
        false
    }

    /// Adds `url` to the set; a URL already present is not stored twice.
    pub fn insert(&mut self, url: String)
        ensures
            final(self)@ == old(self)@.insert(url@),
    {
        if !self.contains(&url) {
            let ghost before = self.urls@;
            self.urls.push(url);
            proof {
                assert forall|u: Seq<char>| self@.contains(u) implies old(self)@.insert(
                    url@,
                ).contains(u) by {
                    let i = choose|i: int|
                        0 <= i < self.urls@.len() && (#[trigger] self.urls@[i])@ == u;
                    if i < before.len() {
                        assert(before[i]@ == u);
                    }
                }
                assert forall|u: Seq<char>|
                    old(self)@.insert(url@).contains(u) implies self@.contains(u) by {
                    if u == url@ {
                        assert((self.urls@[before.len() as int])@ == u);
                    } else {
                        let i = choose|i: int|
                            0 <= i < before.len() && (#[trigger] before[i])@ == u;
                        assert((self.urls@[i])@ == u);
                    }
                }
                assert(self@ =~= old(self)@.insert(url@));
            }
        } else {
            proof {
                assert(self@.contains(url@));
                assert(self@ =~= old(self)@.insert(url@));
            }
        }
    }

    /// Whether the set is empty.
    pub fn is_empty(&self) -> (r: bool)
        ensures
            r == (self@ == Set::<Seq<char>>::empty()),
    {
        if self.urls.len() == 0 {
            proof {
                assert(self@ =~= Set::<Seq<char>>::empty());
            }
            true
        } else {
            proof {
                assert(self@.contains(self.urls@[0]@));
            }
            false
        }
    }
}


/// One entry of a persisted failure report; only the URL matters for
/// building the removal target set, and it may be absent.
#[derive(Debug, Clone, PartialEq, Eq)]
pub struct FailureEntry {
    pub url: Option<String>,
}

/// A parsed failure report: three independently optional groups of
/// entries, one per failure kind.
#[derive(Debug, Clone, PartialEq, Eq)]
pub struct FailureReport {
    pub not_found: Vec<FailureEntry>,
    pub unauthorized: Vec<FailureEntry>,
    pub connection_errors: Vec<FailureEntry>,
}

/// The set of URLs present in a group of report entries.
pub open spec fn entry_urls(entries: Seq<FailureEntry>) -> Set<Seq<char>> {
    Set::new(
        |u: Seq<char>|
            exists|i: int|
                0 <= i < entries.len() && match (#[trigger] entries[i]).url {
                    Some(s) => s@ == u,
                    None => false,
                },
    )
}

/// The removal target set a report describes: the union of the URLs
/// across its three groups, order-independent, duplicates collapsed.
pub open spec fn report_targets(report: FailureReport) -> Set<Seq<char>> {
    entry_urls(report.not_found@) + entry_urls(report.unauthorized@) + entry_urls(
        report.connection_errors@,
    )
}

/// Adds every URL of a group to the target set.
fn add_entries(targets: &mut TargetSet, entries: &Vec<FailureEntry>)
    ensures
        final(targets)@ == old(targets)@ + entry_urls(entries@),
{
    let ghost init = targets@;
    let n = entries.len();
    let mut i: usize = 0;
    while i < n
        invariant
            n == entries@.len(),
            0 <= i <= n,
            targets@ == init + entry_urls(entries@.subrange(0, i as int)),
        decreases n - i,
    {
        let ghost before = targets@;
        match &entries[i].url {
            Some(u) => {
                targets.insert(u.clone());
            },
            None => {},
        }
        proof {
            let prefix = entries@.subrange(0, i as int);
            let prefix1 = entries@.subrange(0, i + 1);
            assert forall|u: Seq<char>| entry_urls(prefix1).contains(u) implies targets@.contains(
                u,
            ) by {
                let j = choose|j: int|
                    0 <= j < prefix1.len() && match (#[trigger] prefix1[j]).url {
                        Some(s) => s@ == u,
                        None => false,
                    };
                if j < i {
                    assert(prefix[j] == prefix1[j]);
                    assert(entry_urls(prefix).contains(u));
                } else {
                    assert(prefix1[i as int] == entries@[i as int]);
                }
            }
            assert forall|u: Seq<char>| targets@.contains(u) implies (init + entry_urls(
                prefix1,
            )).contains(u) by {
                if !before.contains(u) {
                    assert(match entries@[i as int].url {
                        Some(s) => s@ == u,
                        None => false,
                    });
                    assert(prefix1[i as int] == entries@[i as int]);
                    assert(entry_urls(prefix1).contains(u));
                } else {
                    if !init.contains(u) {
                        assert(entry_urls(prefix).contains(u));
                        let j = choose|j: int|
                            0 <= j < prefix.len() && match (#[trigger] prefix[j]).url {
                                Some(s) => s@ == u,
                                None => false,
                            };
                        assert(prefix1[j] == prefix[j]);
                        assert(entry_urls(prefix1).contains(u));
                    }
                }
            }
            assert(targets@ =~= init + entry_urls(prefix1));
        }
        i += 1;
    }
    proof {
        assert(entries@.subrange(0, n as int) =~= entries@);
    }
}

impl FailureReport {
    /// Collapses the report into its removal target set: the union of
    /// the URLs across all three groups, deduplicated.
    pub fn into_targets(self) -> (r: TargetSet)
        ensures
            r@ == report_targets(self),
    {
        let mut targets = TargetSet::new();
        add_entries(&mut targets, &self.not_found);
        add_entries(&mut targets, &self.unauthorized);
        add_entries(&mut targets, &self.connection_errors);
        proof {
            assert(targets@ =~= report_targets(self));
        }
        targets
    }
}

} // verus!
