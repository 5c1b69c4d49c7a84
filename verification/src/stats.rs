//! A snapshot of the event in numbers: how many guests, how many visits
//! begun and ended, who is present, and the fullest hosts.

use vstd::prelude::*;
use crate::checkin::clone_text;
use crate::members::{top_groups, top_hosts};
use crate::rank::{Order, consistent, in_order, lemma_ranked_in_order, rank, ranked, views};
use crate::search::{MemberSearchResult, MemberView, first_n, keep_first, lemma_first_n_in_order};
use crate::store::{GuestStore, StoreView, text_view};
use crate::text::{chars_of, lemma_text_before_chain, lemma_text_before_one_way, text_before,
    text_is_before};

verus! {

/// The most guests that the list of those present names.
pub const PRESENT_CAP: usize = 200;

/// The most hosts that the list of the fullest hosts names.
pub const TOP_HOSTS: usize = 10;

/// A host with its counts, as the snapshot lists it.
pub type HostSummary = MemberSearchResult;

/// A guest that is present: who, since when, and checked in by whom.
#[derive(Debug, Clone, PartialEq, Eq)]
pub struct PresentGuest {
    pub id: i64,
    pub display_name: String,
    pub member_host: Option<String>,
    pub in_ts: String,
    pub operator: Option<String>,
}

/// The model of a [`PresentGuest`].
pub struct PresentView {
    pub id: i64,
    pub display_name: Seq<char>,
    pub member_host: Option<Seq<char>>,
    pub in_ts: Seq<char>,
    pub operator: Option<Seq<char>>,
}

impl View for PresentGuest {
    type V = PresentView;

    open spec fn view(&self) -> PresentView {
        PresentView {
            id: self.id,
            display_name: self.display_name@,
            member_host: text_view(self.member_host),
            in_ts: self.in_ts@,
            operator: text_view(self.operator),
        }
    }
}

/// The snapshot.
#[derive(Debug, Clone, PartialEq, Eq)]
pub struct StatsSummary {
    pub total_guests: usize,
    pub total_check_ins: usize,
    pub total_check_outs: usize,
    pub currently_present: usize,
    pub present_guests: Vec<PresentGuest>,
    pub top_hosts: Vec<HostSummary>,
}

/// The model of a [`StatsSummary`].
pub struct StatsView {
    pub total_guests: nat,
    pub total_check_ins: nat,
    pub total_check_outs: nat,
    pub currently_present: nat,
    pub present_guests: Seq<PresentView>,
    pub top_hosts: Seq<MemberView>,
}

impl View for StatsSummary {
    type V = StatsView;

    open spec fn view(&self) -> StatsView {
        StatsView {
            total_guests: self.total_guests as nat,
            total_check_ins: self.total_check_ins as nat,
            total_check_outs: self.total_check_outs as nat,
            currently_present: self.currently_present as nat,
            present_guests: views(self.present_guests@),
            top_hosts: views(self.top_hosts@),
        }
    }
}

/// Order of the guests present: the latest check-in first, the times
/// compared as texts.
pub struct LatestFirst;

impl Order<PresentGuest> for LatestFirst {
    open spec fn before(a: PresentView, b: PresentView) -> bool {
        text_before(b.in_ts, a.in_ts)
    }

    fn comes_before(a: &PresentGuest, b: &PresentGuest) -> (yes: bool) {
        text_is_before(&chars_of(b.in_ts.as_str()), &chars_of(a.in_ts.as_str()))
    }
}

/// The position of the guest with this identity number.
pub open spec fn guest_index(s: StoreView, guest_id: i64) -> int {
    choose|i: int| 0 <= i < s.guests.len() && #[trigger] s.guests[i].id == guest_id
}

/// The open event at `i` as the snapshot lists it, with the guest that it
/// belongs to.
pub open spec fn present_row(s: StoreView, i: int) -> PresentView {
    let guest = s.guests[guest_index(s, s.events[i].guest_id)];
    PresentView {
        id: guest.id,
        display_name: guest.display_name,
        member_host: guest.member_host,
        in_ts: s.events[i].in_ts,
        operator: s.events[i].in_by,
    }
}

/// The open events among the first `upto`, in the order of the store.
pub open spec fn present_rows(s: StoreView, upto: int) -> Seq<PresentView>
    decreases upto,
{
    if upto <= 0 {
        Seq::<PresentView>::empty()
    } else if s.events[upto - 1].out_ts is None {
        present_rows(s, upto - 1).push(present_row(s, upto - 1))
    } else {
        present_rows(s, upto - 1)
    }
}

/// The number of closed events among the first `upto`.
pub open spec fn closed_count(s: StoreView, upto: int) -> nat
    decreases upto,
{
    if upto <= 0 {
        0
    } else {
        closed_count(s, upto - 1) + if s.events[upto - 1].out_ts is Some {
            1nat
        } else {
            0nat
        }
    }
}

/// The snapshot of a store.
///
/// The count of those present is the length of the list of those present,
/// which names at most [`PRESENT_CAP`] guests.
pub open spec fn stats_model(s: StoreView) -> StatsView {
    let present = first_n(
        ranked::<PresentGuest, LatestFirst>(present_rows(s, s.events.len() as int)),
        PRESENT_CAP as nat,
    );
    StatsView {
        total_guests: s.guests.len(),
        total_check_ins: s.events.len(),
        total_check_outs: closed_count(s, s.events.len() as int),
        currently_present: present.len(),
        present_guests: present,
        top_hosts: top_groups(s, Seq::<Seq<char>>::empty(), TOP_HOSTS as nat),
    }
}

/// In a store that keeps its rules, one identity number names one guest.
pub proof fn lemma_guest_index(s: StoreView, i: int)
    requires
        s.guest_ids_ordered(),
        0 <= i < s.guests.len(),
    ensures
        s.has_guest(s.guests[i].id),
        guest_index(s, s.guests[i].id) == i,
{
    let j = guest_index(s, s.guests[i].id);
    assert(0 <= j < s.guests.len() && s.guests[j].id == s.guests[i].id);
    if j < i {
        assert(s.guests[j].id < s.guests[i].id);
    } else if i < j {
        assert(s.guests[i].id < s.guests[j].id);
    }
}

impl GuestStore {
    /// The position of the guest with this identity number, if the store
    /// holds it.
    pub fn find_guest(&self, guest_id: i64) -> (found: Option<usize>)
        requires
            self@.guest_ids_ordered(),
        ensures
            found is Some <==> self@.has_guest(guest_id),
            found matches Some(i) ==> i as int == guest_index(self@, guest_id) && i
                < self@.guests.len(),
    {
        let mut i: usize = 0;
        while i < self.guests.len()
            invariant
                i <= self.guests.len(),
                self@.guest_ids_ordered(),
                forall|k: int| 0 <= k < i ==> self@.guests[k].id != guest_id,
            decreases self.guests.len() - i,
        {
            if self.guests[i].id == guest_id {
                proof {
                    lemma_guest_index(self@, i as int);
                }
                return Some(i);
            }
            i += 1;
        }
        None
    }

    /// The guests present, one for each open event, in the order of the
    /// store.
    pub fn present_list(&self) -> (out: Vec<PresentGuest>)
        requires
            self@.wf(),
        ensures
            views(out@) == present_rows(self@, self@.events.len() as int),
    {
        let mut out: Vec<PresentGuest> = Vec::new();
        let mut i: usize = 0;
        assert(views(out@) =~= present_rows(self@, 0));
        while i < self.events.len()
            invariant
                i <= self.events.len(),
                self@.wf(),
                views(out@) == present_rows(self@, i as int),
            decreases self.events.len() - i,
        {
            let event = &self.events[i];
            if event.out_ts.is_none() {
                assert(self@.has_guest(self@.events[i as int].guest_id));
                match self.find_guest(event.guest_id) {
                    Some(k) => {
                        let guest = &self.guests[k];
                        let ghost before = views(out@);
                        out.push(
                            PresentGuest {
                                id: guest.id,
                                display_name: guest.display_name.clone(),
                                member_host: clone_text(&guest.member_host),
                                in_ts: event.in_ts.clone(),
                                operator: clone_text(&event.in_by),
                            },
                        );
                        assert(views(out@) =~= before.push(present_row(self@, i as int)));
                    },
                    None => {},
                }
            }
            i += 1;
        }
        out
    }

    /// The number of closed events.
    pub fn count_closed(&self) -> (n: usize)
        ensures
            n == closed_count(self@, self@.events.len() as int),
    {
        let mut n: usize = 0;
        let mut i: usize = 0;
        while i < self.events.len()
            invariant
                i <= self.events.len(),
                n <= i,
                n == closed_count(self@, i as int),
            decreases self.events.len() - i,
        {
            if self.events[i].out_ts.is_some() {
                n += 1;
            }
            i += 1;
        }
        n
    }
}

/// The snapshot of the store.
pub fn stats_summary(store: &GuestStore) -> (out: StatsSummary)
    requires
        store@.wf(),
    ensures
        out@ == stats_model(store@),
{
    let present = keep_first(rank::<PresentGuest, LatestFirst>(store.present_list()), PRESENT_CAP);
    let no_tokens: Vec<Vec<char>> = Vec::new();
    assert(crate::search::texts(no_tokens@) =~= Seq::<Seq<char>>::empty());
    let hosts = top_hosts(store, &no_tokens, TOP_HOSTS);
    StatsSummary {
        total_guests: store.guests.len(),
        total_check_ins: store.events.len(),
        total_check_outs: store.count_closed(),
        currently_present: present.len(),
        present_guests: present,
        top_hosts: hosts,
    }
}

/// Order by the latest check-in is consistent.
pub proof fn law_latest_first_consistent()
    ensures
        consistent::<PresentGuest, LatestFirst>(),
{
    assert forall|a: PresentView, b: PresentView| #[trigger]
        LatestFirst::before(a, b) implies !LatestFirst::before(b, a) by {
        lemma_text_before_one_way(b.in_ts, a.in_ts);
    }
    assert forall|a: PresentView, b: PresentView, c: PresentView|
        !#[trigger] LatestFirst::before(b, a) && !#[trigger] LatestFirst::before(
            c,
            b,
        ) implies !LatestFirst::before(c, a) by {
        lemma_text_before_chain(c.in_ts, b.in_ts, a.in_ts);
    }
}

/// The snapshot names at most [`PRESENT_CAP`] guests as present, the
/// latest check-in first, and counts as present those that it names.
pub proof fn law_present_list(s: StoreView)
    ensures
        stats_model(s).present_guests.len() <= PRESENT_CAP,
        stats_model(s).currently_present == stats_model(s).present_guests.len(),
        in_order::<PresentGuest, LatestFirst>(stats_model(s).present_guests),
{
    let rows = present_rows(s, s.events.len() as int);
    law_latest_first_consistent();
    lemma_ranked_in_order::<PresentGuest, LatestFirst>(rows);
    lemma_first_n_in_order::<PresentGuest, LatestFirst>(
        ranked::<PresentGuest, LatestFirst>(rows),
        PRESENT_CAP as nat,
    );
}

} // verus!
