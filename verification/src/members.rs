//! Search over hosts: each host with the number of its guests and of those
//! present, the fullest houses first.

use vstd::prelude::*;
use crate::rank::{rank, ranked, views};
use crate::search::{ByPresence, MemberSearchResult, MemberView, effective_limit, first_n,
    holds_tokens, host_holds_tokens, keep_first, limit_of, query_tokens, texts, tokens_of};
use crate::store::{GuestStore, GuestView, StoreView};
use crate::text::{chars_of, same_text};

verus! {

/// The position of the first group of `host`, or the number of groups
/// where it has none.
pub open spec fn host_index(groups: Seq<MemberView>, host: Seq<char>) -> int
    decreases groups.len(),
{
    if groups.len() == 0 || groups[0].member_host == host {
        0
    } else {
        1 + host_index(groups.drop_first(), host)
    }
}

/// A group with one more guest.
pub open spec fn bumped(group: MemberView, present: bool) -> MemberView {
    MemberView {
        member_host: group.member_host,
        total_guests: group.total_guests + 1,
        present_guests: group.present_guests + if present {
            1nat
        } else {
            0nat
        },
    }
}

/// The groups with one more guest of `host` counted: in the group of the
/// host, or in a new group behind the others.
pub open spec fn tallied(groups: Seq<MemberView>, host: Seq<char>, present: bool) -> Seq<
    MemberView,
> {
    let k = host_index(groups, host);
    if 0 <= k < groups.len() {
        groups.update(k, bumped(groups[k], present))
    } else {
        groups.push(
            bumped(MemberView { member_host: host, total_guests: 0, present_guests: 0 }, present),
        )
    }
}

/// Whether the guest counts for a host that holds each of the tokens: the
/// guest has a host, the host is not empty, and its folded text contains
/// every token.
pub open spec fn counts_for(g: GuestView, tokens: Seq<Seq<char>>) -> bool {
    g.member_host is Some && g.member_host->0.len() > 0 && holds_tokens(g.member_host->0, tokens)
}

/// The hosts of the first `upto` guests that hold each of the tokens, each
/// with its counts, in the order in which the hosts first occur.
pub open spec fn host_groups(s: StoreView, tokens: Seq<Seq<char>>, upto: int) -> Seq<MemberView>
    decreases upto,
{
    if upto <= 0 {
        Seq::<MemberView>::empty()
    } else if counts_for(s.guests[upto - 1], tokens) {
        tallied(
            host_groups(s, tokens, upto - 1),
            s.guests[upto - 1].member_host->0,
            s.is_present(s.guests[upto - 1].id),
        )
    } else {
        host_groups(s, tokens, upto - 1)
    }
}

/// The hosts that hold each of the tokens, those with more guests present
/// first, then those with more guests, up to `lim` of them.
pub open spec fn top_groups(s: StoreView, tokens: Seq<Seq<char>>, lim: nat) -> Seq<MemberView> {
    first_n(
        ranked::<MemberSearchResult, ByPresence>(host_groups(s, tokens, s.guests.len() as int)),
        lim,
    )
}

/// The hosts that a query finds, up to `lim` of them.
pub open spec fn search_members_model(s: StoreView, query: Seq<char>, lim: nat) -> Seq<
    MemberView,
> {
    top_groups(s, query_tokens(query), lim)
}

/// Where no group before `k` is of the host, and `k` is the end or a group
/// of the host, `k` is the position that [`host_index`] gives.
pub proof fn lemma_host_index(groups: Seq<MemberView>, host: Seq<char>, k: int)
    requires
        0 <= k <= groups.len(),
        forall|j: int| 0 <= j < k ==> (#[trigger] groups[j]).member_host != host,
        k < groups.len() ==> groups[k].member_host == host,
    ensures
        host_index(groups, host) == k,
    decreases k,
{
    if k > 0 {
        let rest = groups.drop_first();
        assert forall|j: int| 0 <= j < k - 1 implies (#[trigger] rest[j]).member_host != host by {
            assert(rest[j] == groups[j + 1]);
        }
        lemma_host_index(rest, host, k - 1);
    }
}

/// Whether no group counts more than `bound` guests, nor more present
/// than guests.
pub open spec fn counts_within(groups: Seq<MemberSearchResult>, bound: nat) -> bool {
    forall|k: int|
        0 <= k < groups.len() ==> (#[trigger] groups[k]).total_guests <= bound
            && groups[k].present_guests <= groups[k].total_guests
}

/// Counts one more guest of `host` in the groups.
fn tally(groups: &mut Vec<MemberSearchResult>, host: &str, present: bool, bound: Ghost<nat>)
    requires
        bound@ < usize::MAX,
        counts_within(old(groups)@, bound@),
    ensures
        views(final(groups)@) == tallied(views(old(groups)@), host@, present),
        counts_within(final(groups)@, bound@ + 1),
{
    let wanted = chars_of(host);
    let ghost before = views(groups@);
    let step: usize = if present {
        1
    } else {
        0
    };
    let mut k: usize = 0;
    while k < groups.len()
        invariant
            k <= groups.len(),
            groups@ == old(groups)@,
            counts_within(groups@, bound@),
            bound@ < usize::MAX,
            step == if present {
                1usize
            } else {
                0usize
            },
            wanted@ == host@,
            forall|j: int| 0 <= j < k ==> (#[trigger] before[j]).member_host != host@,
            before == views(groups@),
        decreases groups.len() - k,
    {
        if same_text(&chars_of(groups[k].member_host.as_str()), &wanted) {
            proof {
                assert(before[k as int].member_host == host@);
                lemma_host_index(before, host@, k as int);
            }
            assert(groups@[k as int].present_guests <= groups@[k as int].total_guests <= bound@);
            let ghost held = groups@;
            let group = groups.remove(k);
            groups.insert(
                k,
                MemberSearchResult {
                    member_host: group.member_host,
                    total_guests: group.total_guests + 1,
                    present_guests: group.present_guests + step,
                },
            );
            proof {
                assert(before[k as int] == held[k as int]@);
                assert forall|j: int| 0 <= j < groups@.len() implies views(groups@)[j] == tallied(
                    before,
                    host@,
                    present,
                )[j] by {
                    if j != k {
                        assert(groups@[j] == held[j]);
                        assert(before[j] == held[j]@);
                    }
                }
                assert(views(groups@) =~= tallied(before, host@, present));
                assert forall|j: int| 0 <= j < groups@.len() implies (#[trigger] groups@[j]).total_guests
                    <= bound@ + 1 && groups@[j].present_guests <= groups@[j].total_guests by {
                    if j != k {
                        assert(groups@[j] == held[j]);
                    }
                }
            }
            return ;
        }
        assert(before[k as int].member_host != host@);
        k += 1;
    }
    proof {
        lemma_host_index(before, host@, before.len() as int);
    }
    groups.push(
        MemberSearchResult { member_host: host.to_owned(), total_guests: 1, present_guests: step },
    );
    assert(views(groups@) =~= tallied(before, host@, present));
}

impl GuestStore {
    /// The hosts that hold each of the tokens, each with its counts, in
    /// the order in which the hosts first occur.
    pub fn group_hosts(&self, tokens: &Vec<Vec<char>>) -> (out: Vec<MemberSearchResult>)
        ensures
            views(out@) == host_groups(self@, texts(tokens@), self@.guests.len() as int),
    {
        let mut out: Vec<MemberSearchResult> = Vec::new();
        let mut i: usize = 0;
        assert(views(out@) =~= host_groups(self@, texts(tokens@), 0));
        while i < self.guests.len()
            invariant
                i <= self.guests.len(),
                views(out@) == host_groups(self@, texts(tokens@), i as int),
                counts_within(out@, i as nat),
            decreases self.guests.len() - i,
        {
            let guest = &self.guests[i];
            match &guest.member_host {
                Some(host) => {
                    let name = chars_of(host.as_str());
                    if name.len() > 0 && host_holds_tokens(&name, tokens) {
                        let present = self.is_present(guest.id);
                        tally(&mut out, host.as_str(), present, Ghost(i as nat));
                    }
                },
                None => {},
            }
            i += 1;
        }
        out
    }
}

/// The hosts that hold each of the tokens, the fullest first, up to `lim`
/// of them.
pub fn top_hosts(store: &GuestStore, tokens: &Vec<Vec<char>>, lim: usize) -> (out: Vec<
    MemberSearchResult,
>)
    ensures
        views(out@) == top_groups(store@, texts(tokens@), lim as nat),
{
    keep_first(rank::<MemberSearchResult, ByPresence>(store.group_hosts(tokens)), lim)
}

/// The hosts that a query finds: those whose name contains each token of
/// the query, every host for a query without tokens; at most `limit` of
/// them, 25 where no limit is given, and never more than 200.
pub fn search_members(store: &GuestStore, q: &str, limit: Option<usize>) -> (out: Vec<
    MemberSearchResult,
>)
    ensures
        views(out@) == search_members_model(store@, q@, limit_of(limit, 200)),
{
    let lim = effective_limit(limit, 200);
    let tokens = tokens_of(q);
    top_hosts(store, &tokens, lim)
}

/// The number of guests of `host` among the first `upto` that count for a
/// host holding each of the tokens.
pub open spec fn counted(s: StoreView, tokens: Seq<Seq<char>>, host: Seq<char>, upto: int) -> nat
    decreases upto,
{
    if upto <= 0 {
        0
    } else {
        counted(s, tokens, host, upto - 1) + if counts_for(s.guests[upto - 1], tokens)
            && s.guests[upto - 1].member_host->0 == host {
            1nat
        } else {
            0nat
        }
    }
}

/// The number of those among them that are present.
pub open spec fn counted_present(
    s: StoreView,
    tokens: Seq<Seq<char>>,
    host: Seq<char>,
    upto: int,
) -> nat
    decreases upto,
{
    if upto <= 0 {
        0
    } else {
        counted_present(s, tokens, host, upto - 1) + if counts_for(s.guests[upto - 1], tokens)
            && s.guests[upto - 1].member_host->0 == host && s.is_present(s.guests[upto - 1].id) {
            1nat
        } else {
            0nat
        }
    }
}

/// Whether the groups are those of the first `upto` guests: one group for
/// each host that has a guest, no host twice, and in each group the number
/// of the host's guests and the number of those present.
pub open spec fn groups_count(
    groups: Seq<MemberView>,
    s: StoreView,
    tokens: Seq<Seq<char>>,
    upto: int,
) -> bool {
    &&& forall|k: int|
        0 <= k < groups.len() ==> (#[trigger] groups[k]).total_guests == counted(
            s,
            tokens,
            groups[k].member_host,
            upto,
        ) && groups[k].present_guests == counted_present(s, tokens, groups[k].member_host, upto)
            && groups[k].total_guests >= 1
    &&& forall|a: int, b: int|
        0 <= a < b < groups.len() ==> (#[trigger] groups[a]).member_host != (
        #[trigger] groups[b]).member_host
    &&& forall|host: Seq<char>| #[trigger]
        counted(s, tokens, host, upto) > 0 ==> exists|k: int|
            0 <= k < groups.len() && (#[trigger] groups[k]).member_host == host
}

/// The position that [`host_index`] gives is that of the first group of
/// the host, or the number of groups where the host has none.
pub proof fn lemma_host_index_found(groups: Seq<MemberView>, host: Seq<char>)
    ensures
        0 <= host_index(groups, host) <= groups.len(),
        host_index(groups, host) < groups.len() ==> groups[host_index(
            groups,
            host,
        )].member_host == host,
        forall|j: int|
            0 <= j < host_index(groups, host) ==> (#[trigger] groups[j]).member_host != host,
    decreases groups.len(),
{
    if groups.len() > 0 && groups[0].member_host != host {
        let rest = groups.drop_first();
        lemma_host_index_found(rest, host);
        let k = host_index(rest, host);
        assert forall|j: int| 0 <= j < k + 1 implies (#[trigger] groups[j]).member_host != host by {
            if j > 0 {
                assert(rest[j - 1] == groups[j]);
            }
        }
        if k < rest.len() {
            assert(rest[k] == groups[k + 1]);
        }
    }
}

/// No more guests of a host are present than it has guests.
pub proof fn lemma_present_within(s: StoreView, tokens: Seq<Seq<char>>, host: Seq<char>, upto: int)
    ensures
        counted_present(s, tokens, host, upto) <= counted(s, tokens, host, upto),
    decreases upto,
{
    if upto > 0 {
        lemma_present_within(s, tokens, host, upto - 1);
    }
}

/// The groups of a store count its guests: each host that has a guest
/// counting for the tokens has exactly one group, and the group holds the
/// number of the host's guests and the number of those present.
pub proof fn law_host_groups_count(s: StoreView, tokens: Seq<Seq<char>>, upto: int)
    requires
        0 <= upto <= s.guests.len(),
    ensures
        groups_count(host_groups(s, tokens, upto), s, tokens, upto),
    decreases upto,
{
    if upto > 0 {
        law_host_groups_count(s, tokens, upto - 1);
        let before = host_groups(s, tokens, upto - 1);
        let after = host_groups(s, tokens, upto);
        let guest = s.guests[upto - 1];
        if counts_for(guest, tokens) {
            let host = guest.member_host->0;
            let present = s.is_present(guest.id);
            lemma_host_index_found(before, host);
            let at = host_index(before, host);
            assert forall|k: int| 0 <= k < after.len() implies (
            #[trigger] after[k]).total_guests == counted(s, tokens, after[k].member_host, upto)
                && after[k].present_guests == counted_present(
                s,
                tokens,
                after[k].member_host,
                upto,
            ) && after[k].total_guests >= 1 by {
                if k < before.len() && k != at {
                    assert(after[k] == before[k]);
                    if at < before.len() {
                        if k < at {
                            assert(before[k].member_host != before[at].member_host);
                        } else {
                            assert(before[at].member_host != before[k].member_host);
                        }
                    }
                    assert(before[k].member_host != host);
                    assert(counted(s, tokens, before[k].member_host, upto) == counted(
                        s,
                        tokens,
                        before[k].member_host,
                        upto - 1,
                    ));
                } else if at < before.len() {
                    assert(k == at);
                    assert(after[k] == bumped(before[k], present));
                    assert(before[k].member_host == host);
                } else {
                    // a new group: the host had no guest so far
                    assert(k == before.len());
                    if counted(s, tokens, host, upto - 1) > 0 {
                        let m = choose|m: int|
                            0 <= m < before.len() && (#[trigger] before[m]).member_host == host;
                        assert(before[m].member_host != host);
                    }
                    assert(counted(s, tokens, host, upto - 1) == 0);
                    assert(counted_present(s, tokens, host, upto - 1) == 0) by {
                        lemma_present_within(s, tokens, host, upto - 1);
                    }
                    assert(after[k].member_host == host);
                }
            }
            assert forall|a: int, b: int| 0 <= a < b < after.len() implies (
            #[trigger] after[a]).member_host != (#[trigger] after[b]).member_host by {
                if b < before.len() {
                    assert(after[a].member_host == before[a].member_host);
                    assert(after[b].member_host == before[b].member_host);
                } else {
                    assert(after[a].member_host == before[a].member_host);
                }
            }
            assert forall|h: Seq<char>| #[trigger]
                counted(s, tokens, h, upto) > 0 implies exists|k: int|
                0 <= k < after.len() && (#[trigger] after[k]).member_host == h by {
                if h == host {
                    if at < before.len() {
                        assert(after[at].member_host == h);
                    } else {
                        assert(after[after.len() - 1].member_host == h);
                    }
                } else {
                    assert(counted(s, tokens, h, upto - 1) > 0);
                    let m = choose|m: int|
                        0 <= m < before.len() && (#[trigger] before[m]).member_host == h;
                    assert(after[m].member_host == h);
                }
            }
        } else {
            assert forall|h: Seq<char>| #[trigger]
                counted(s, tokens, h, upto) > 0 implies exists|k: int|
                0 <= k < after.len() && (#[trigger] after[k]).member_host == h by {
                assert(counted(s, tokens, h, upto - 1) > 0);
            }
        }
    }
}

} // verus!
