//! Search over guests and hosts.
//!
//! A query is cut into tokens: its words, reduced to ASCII letters and
//! digits in lower case. A guest matches when each token begins a word of
//! its name. Matches are ranked by relevance, which this crate defines on
//! integers: a name of fewer words matches a query more fully and comes
//! first, and names of as many words stand in alphabetical order. Without
//! any match, the guests whose name contains the whole query are listed
//! alphabetically.

use vstd::prelude::*;
use crate::checkin::clone_text;
use crate::names::{clean_token_chars, clean_token_model};
use crate::rank::{Order, consistent, in_order, lemma_ranked_in_order, lemma_ranked_members,
    lemma_ranked_rearranges, rank, ranked, views};
use crate::store::{GuestStore, GuestView, StoreView, text_view};
use crate::text::{ascii_alnum, chars_of, contains_text, fold_text, folded, is_ascii_alnum,
    lemma_text_before_chain, lemma_text_before_one_way, occurs_at, same_text, split_words,
    text_before, text_contains, text_is_before, text_occurs_at, trim_text, trimmed, words};

verus! {

/// A guest as a search reports it.
#[derive(Debug, Clone, PartialEq, Eq)]
pub struct GuestSearchResult {
    pub id: i64,
    pub display_name: String,
    pub member_host: Option<String>,
    pub is_checked_in: bool,
    pub has_history: bool,
}

/// The model of a [`GuestSearchResult`].
pub struct GuestResultView {
    pub id: i64,
    pub display_name: Seq<char>,
    pub member_host: Option<Seq<char>>,
    pub is_checked_in: bool,
    pub has_history: bool,
}

impl View for GuestSearchResult {
    type V = GuestResultView;

    open spec fn view(&self) -> GuestResultView {
        GuestResultView {
            id: self.id,
            display_name: self.display_name@,
            member_host: text_view(self.member_host),
            is_checked_in: self.is_checked_in,
            has_history: self.has_history,
        }
    }
}

/// A host as a search reports it: how many guests it has, and how many of
/// them are present.
#[derive(Debug, Clone, PartialEq, Eq)]
pub struct MemberSearchResult {
    pub member_host: String,
    pub total_guests: usize,
    pub present_guests: usize,
}

/// The model of a [`MemberSearchResult`].
pub struct MemberView {
    pub member_host: Seq<char>,
    pub total_guests: nat,
    pub present_guests: nat,
}

impl View for MemberSearchResult {
    type V = MemberView;

    open spec fn view(&self) -> MemberView {
        MemberView {
            member_host: self.member_host@,
            total_guests: self.total_guests as nat,
            present_guests: self.present_guests as nat,
        }
    }
}

/// Which guests a listing takes.
pub enum GuestFilter {
    /// Every guest.
    All,
    /// The guests whose name has, for each token, a word that begins with
    /// it.
    Prefixes(Vec<Vec<char>>),
    /// The guests whose name contains the text, ASCII letter case ignored.
    /// The text is held folded.
    Containing(Vec<char>),
    /// The guests of the host, ASCII letter case ignored. The host is held
    /// folded.
    HostedBy(Vec<char>),
}

/// The model of a [`GuestFilter`].
pub enum FilterView {
    All,
    Prefixes(Seq<Seq<char>>),
    Containing(Seq<char>),
    HostedBy(Seq<char>),
}

/// The texts of a sequence of character vectors.
pub open spec fn texts(items: Seq<Vec<char>>) -> Seq<Seq<char>> {
    Seq::new(items.len(), |k: int| items[k]@)
}

impl View for GuestFilter {
    type V = FilterView;

    open spec fn view(&self) -> FilterView {
        match self {
            GuestFilter::All => FilterView::All,
            GuestFilter::Prefixes(tokens) => FilterView::Prefixes(texts(tokens@)),
            GuestFilter::Containing(text) => FilterView::Containing(text@),
            GuestFilter::HostedBy(host) => FilterView::HostedBy(host@),
        }
    }
}

/// Alphabetical order of guests by their names.
pub struct ByName;

/// Order of guests by relevance: fewer words first, then alphabetical.
pub struct ByRelevance;

/// Order of hosts: more guests present first, then more guests.
pub struct ByPresence;

/// Whether a word of `name` begins at `at`: an ASCII letter or digit that
/// no other precedes.
pub open spec fn word_start(name: Seq<char>, at: int) -> bool {
    0 <= at < name.len() && is_ascii_alnum(name[at]) && (at == 0 || !is_ascii_alnum(name[at - 1]))
}

/// The number of words of `name`.
pub open spec fn word_count(name: Seq<char>) -> nat
    decreases name.len(),
{
    if name.len() == 0 {
        0
    } else {
        word_count(name.drop_last()) + if word_start(name, name.len() - 1) {
            1nat
        } else {
            0nat
        }
    }
}

/// Whether a word of `name` begins with `token`, ASCII letter case
/// ignored.
pub open spec fn begins_word(name: Seq<char>, token: Seq<char>) -> bool {
    exists|at: int| #[trigger] word_start(name, at) && occurs_at(folded(name), token, at)
}

/// Whether each of the tokens begins a word of `name`.
pub open spec fn begins_words(name: Seq<char>, tokens: Seq<Seq<char>>) -> bool {
    forall|k: int| 0 <= k < tokens.len() ==> begins_word(name, #[trigger] tokens[k])
}

/// Whether the folded `host` contains each of the tokens.
pub open spec fn holds_tokens(host: Seq<char>, tokens: Seq<Seq<char>>) -> bool {
    forall|k: int| 0 <= k < tokens.len() ==> contains_text(folded(host), #[trigger] tokens[k])
}

/// The words cleaned into tokens, those that come out empty left out.
pub open spec fn cleaned_tokens(parts: Seq<Seq<char>>) -> Seq<Seq<char>>
    decreases parts.len(),
{
    if parts.len() == 0 {
        Seq::<Seq<char>>::empty()
    } else if clean_token_model(parts.last()).len() == 0 {
        cleaned_tokens(parts.drop_last())
    } else {
        cleaned_tokens(parts.drop_last()).push(clean_token_model(parts.last()))
    }
}

/// The tokens of a query.
pub open spec fn query_tokens(query: Seq<char>) -> Seq<Seq<char>> {
    cleaned_tokens(words(trimmed(query)))
}

/// Whether the filter takes the guest.
pub open spec fn passes(g: GuestView, filter: FilterView) -> bool {
    match filter {
        FilterView::All => true,
        FilterView::Prefixes(tokens) => begins_words(g.display_name, tokens),
        FilterView::Containing(text) => contains_text(folded(g.display_name), text),
        FilterView::HostedBy(host) => g.member_host is Some && folded(g.member_host->0) == host,
    }
}

/// The guest at `i` as a search reports it.
pub open spec fn result_of(s: StoreView, i: int) -> GuestResultView {
    GuestResultView {
        id: s.guests[i].id,
        display_name: s.guests[i].display_name,
        member_host: s.guests[i].member_host,
        is_checked_in: s.is_present(s.guests[i].id),
        has_history: s.has_history(s.guests[i].id),
    }
}

/// Those of the first `upto` guests that the filter takes, in the order of
/// the store.
pub open spec fn selected(s: StoreView, filter: FilterView, upto: int) -> Seq<GuestResultView>
    decreases upto,
{
    if upto <= 0 {
        Seq::<GuestResultView>::empty()
    } else if passes(s.guests[upto - 1], filter) {
        selected(s, filter, upto - 1).push(result_of(s, upto - 1))
    } else {
        selected(s, filter, upto - 1)
    }
}

/// The number of results that a search may return: what the caller asks
/// for, 25 where it does not say, and never more than `cap`.
pub open spec fn limit_of(limit: Option<usize>, cap: usize) -> nat {
    let asked = match limit {
        Some(n) => n,
        None => 25usize,
    };
    if asked < cap {
        asked as nat
    } else {
        cap as nat
    }
}

/// The first `n` items, or all of them where there are fewer.
pub open spec fn first_n<V>(items: Seq<V>, n: nat) -> Seq<V> {
    if n < items.len() {
        items.take(n as int)
    } else {
        items
    }
}

/// Every guest in alphabetical order, up to the limit.
pub open spec fn default_results(s: StoreView, lim: nat) -> Seq<GuestResultView> {
    first_n(
        ranked::<GuestSearchResult, ByName>(selected(s, FilterView::All, s.guests.len() as int)),
        lim,
    )
}

/// The guests that a query finds, up to `lim` of them.
///
/// Without a token, every guest in alphabetical order. Otherwise the
/// guests of which each token begins a word, by relevance; and where there
/// is none, the guests whose name contains the trimmed query, in
/// alphabetical order.
pub open spec fn search_guests_model(s: StoreView, query: Seq<char>, lim: nat) -> Seq<
    GuestResultView,
> {
    let tokens = query_tokens(query);
    let n = s.guests.len() as int;
    if tokens.len() == 0 {
        default_results(s, lim)
    } else {
        let hits = first_n(
            ranked::<GuestSearchResult, ByRelevance>(selected(s, FilterView::Prefixes(tokens), n)),
            lim,
        );
        if hits.len() > 0 {
            hits
        } else {
            first_n(
                ranked::<GuestSearchResult, ByName>(
                    selected(s, FilterView::Containing(folded(trimmed(query))), n),
                ),
                lim,
            )
        }
    }
}

/// The guests of a host, in alphabetical order: none for a host that is
/// empty once trimmed.
pub open spec fn guests_for_member_model(s: StoreView, host: Seq<char>) -> Seq<GuestResultView> {
    if trimmed(host).len() == 0 {
        Seq::<GuestResultView>::empty()
    } else {
        ranked::<GuestSearchResult, ByName>(
            selected(s, FilterView::HostedBy(folded(trimmed(host))), s.guests.len() as int),
        )
    }
}

impl Order<GuestSearchResult> for ByName {
    open spec fn before(a: GuestResultView, b: GuestResultView) -> bool {
        text_before(a.display_name, b.display_name)
    }

    fn comes_before(a: &GuestSearchResult, b: &GuestSearchResult) -> (yes: bool) {
        text_is_before(&chars_of(a.display_name.as_str()), &chars_of(b.display_name.as_str()))
    }
}

impl Order<GuestSearchResult> for ByRelevance {
    open spec fn before(a: GuestResultView, b: GuestResultView) -> bool {
        word_count(a.display_name) < word_count(b.display_name) || (word_count(a.display_name)
            == word_count(b.display_name) && text_before(a.display_name, b.display_name))
    }

    fn comes_before(a: &GuestSearchResult, b: &GuestSearchResult) -> (yes: bool) {
        let name_a = chars_of(a.display_name.as_str());
        let name_b = chars_of(b.display_name.as_str());
        let words_a = count_words(&name_a);
        let words_b = count_words(&name_b);
        words_a < words_b || (words_a == words_b && text_is_before(&name_a, &name_b))
    }
}

impl Order<MemberSearchResult> for ByPresence {
    open spec fn before(a: MemberView, b: MemberView) -> bool {
        a.present_guests > b.present_guests || (a.present_guests == b.present_guests
            && a.total_guests > b.total_guests)
    }

    fn comes_before(a: &MemberSearchResult, b: &MemberSearchResult) -> (yes: bool) {
        a.present_guests > b.present_guests || (a.present_guests == b.present_guests
            && a.total_guests > b.total_guests)
    }
}

/// The number of words of `name`.
pub fn count_words(name: &Vec<char>) -> (n: usize)
    ensures
        n == word_count(name@),
{
    let mut n: usize = 0;
    let mut i: usize = 0;
    assert(name@.take(0) =~= Seq::<char>::empty());
    while i < name.len()
        invariant
            i <= name.len(),
            n == word_count(name@.take(i as int)),
            n <= i,
        decreases name.len() - i,
    {
        proof {
            assert(name@.take(i + 1).drop_last() =~= name@.take(i as int));
            assert(word_start(name@.take(i + 1), i as int) == word_start(name@, i as int));
        }
        if ascii_alnum(name[i]) && (i == 0 || !ascii_alnum(name[i - 1])) {
            n += 1;
        }
        i += 1;
    }
    assert(name@.take(name.len() as int) =~= name@);
    n
}

/// Whether a word of `name` begins with `token`, ASCII letter case
/// ignored.
pub fn name_begins_word(name: &Vec<char>, token: &Vec<char>) -> (yes: bool)
    ensures
        yes == begins_word(name@, token@),
{
    let low = fold_text(name);
    let mut at: usize = 0;
    while at < name.len()
        invariant
            at <= name.len(),
            low@ == folded(name@),
            forall|k: int|
                0 <= k < at ==> !(#[trigger] word_start(name@, k) && occurs_at(
                    folded(name@),
                    token@,
                    k,
                )),
        decreases name.len() - at,
    {
        if ascii_alnum(name[at]) && (at == 0 || !ascii_alnum(name[at - 1])) {
            if text_occurs_at(&low, token, at) {
                assert(word_start(name@, at as int));
                return true;
            }
        }
        at += 1;
    }
    false
}

/// Whether each of the tokens begins a word of `name`.
pub fn name_begins_words(name: &Vec<char>, tokens: &Vec<Vec<char>>) -> (yes: bool)
    ensures
        yes == begins_words(name@, texts(tokens@)),
{
    let mut k: usize = 0;
    while k < tokens.len()
        invariant
            k <= tokens.len(),
            forall|j: int| 0 <= j < k ==> begins_word(name@, #[trigger] texts(tokens@)[j]),
        decreases tokens.len() - k,
    {
        if !name_begins_word(name, &tokens[k]) {
            assert(!begins_word(name@, texts(tokens@)[k as int]));
            return false;
        }
        k += 1;
    }
    true
}

/// Whether the folded `host` contains each of the tokens.
pub fn host_holds_tokens(host: &Vec<char>, tokens: &Vec<Vec<char>>) -> (yes: bool)
    ensures
        yes == holds_tokens(host@, texts(tokens@)),
{
    let low = fold_text(host);
    let mut k: usize = 0;
    while k < tokens.len()
        invariant
            k <= tokens.len(),
            low@ == folded(host@),
            forall|j: int|
                0 <= j < k ==> contains_text(folded(host@), #[trigger] texts(tokens@)[j]),
        decreases tokens.len() - k,
    {
        if !text_contains(&low, &tokens[k]) {
            assert(!contains_text(folded(host@), texts(tokens@)[k as int]));
            return false;
        }
        k += 1;
    }
    true
}

/// The tokens of a query.
pub fn tokens_of(query: &str) -> (out: Vec<Vec<char>>)
    ensures
        texts(out@) == query_tokens(query@),
{
    let parts = split_words(&trim_text(&chars_of(query)));
    let ghost all = words(trimmed(query@));
    assert(texts(parts@) =~= all);
    let mut out: Vec<Vec<char>> = Vec::new();
    let mut i: usize = 0;
    assert(all.take(0) =~= Seq::<Seq<char>>::empty());
    assert(texts(out@) =~= cleaned_tokens(all.take(0)));
    while i < parts.len()
        invariant
            i <= parts.len(),
            all == texts(parts@),
            texts(out@) == cleaned_tokens(all.take(i as int)),
        decreases parts.len() - i,
    {
        let token = clean_token_chars(&parts[i]);
        proof {
            assert(all.take(i + 1).drop_last() =~= all.take(i as int));
            assert(all.take(i + 1).last() == parts@[i as int]@);
        }
        if token.len() > 0 {
            let ghost before = texts(out@);
            out.push(token);
            assert(texts(out@) =~= before.push(token@));
        }
        i += 1;
    }
    assert(all.take(parts.len() as int) =~= all);
    out
}

/// The number of results that a search may return.
pub fn effective_limit(limit: Option<usize>, cap: usize) -> (lim: usize)
    ensures
        lim == limit_of(limit, cap),
{
    let asked: usize = match limit {
        Some(n) => n,
        None => 25,
    };
    if asked < cap {
        asked
    } else {
        cap
    }
}

/// Cuts a list down to its first `n` items.
pub fn keep_first<T: View>(items: Vec<T>, n: usize) -> (out: Vec<T>)
    ensures
        views(out@) == first_n(views(items@), n as nat),
{
    let mut out = items;
    if n < out.len() {
        out.truncate(n);
    }
    assert(views(out@) =~= first_n(views(items@), n as nat));
    out
}

impl GuestStore {
    /// Whether the filter takes the guest at `i`.
    fn passes_at(&self, i: usize, filter: &GuestFilter) -> (yes: bool)
        requires
            i < self@.guests.len(),
        ensures
            yes == passes(self@.guests[i as int], filter@),
    {
        let guest = &self.guests[i];
        match filter {
            GuestFilter::All => true,
            GuestFilter::Prefixes(tokens) => name_begins_words(
                &chars_of(guest.display_name.as_str()),
                tokens,
            ),
            GuestFilter::Containing(text) => text_contains(
                &fold_text(&chars_of(guest.display_name.as_str())),
                text,
            ),
            GuestFilter::HostedBy(host) => match &guest.member_host {
                Some(h) => same_text(&fold_text(&chars_of(h.as_str())), host),
                None => false,
            },
        }
    }

    /// The guest at `i` as a search reports it.
    fn result_at(&self, i: usize) -> (out: GuestSearchResult)
        requires
            i < self@.guests.len(),
        ensures
            out@ == result_of(self@, i as int),
    {
        let guest = &self.guests[i];
        GuestSearchResult {
            id: guest.id,
            display_name: guest.display_name.clone(),
            member_host: clone_text(&guest.member_host),
            is_checked_in: self.is_present(guest.id),
            has_history: self.has_history(guest.id),
        }
    }

    /// The guests that the filter takes, in the order of the store.
    pub fn select(&self, filter: &GuestFilter) -> (out: Vec<GuestSearchResult>)
        ensures
            views(out@) == selected(self@, filter@, self@.guests.len() as int),
    {
        let mut out: Vec<GuestSearchResult> = Vec::new();
        let mut i: usize = 0;
        assert(views(out@) =~= selected(self@, filter@, 0));
        while i < self.guests.len()
            invariant
                i <= self.guests.len(),
                views(out@) == selected(self@, filter@, i as int),
            decreases self.guests.len() - i,
        {
            if self.passes_at(i, filter) {
                let ghost before = views(out@);
                out.push(self.result_at(i));
                assert(views(out@) =~= before.push(result_of(self@, i as int)));
            }
            i += 1;
        }
        out
    }
}

/// Every guest in alphabetical order, up to `lim` of them.
pub fn fetch_default_results(store: &GuestStore, lim: usize) -> (out: Vec<GuestSearchResult>)
    ensures
        views(out@) == default_results(store@, lim as nat),
{
    keep_first(rank::<GuestSearchResult, ByName>(store.select(&GuestFilter::All)), lim)
}

/// The guests that a query finds: at most `limit` of them, 25 where no
/// limit is given, and never more than 100.
pub fn search_guests(store: &GuestStore, q: &str, limit: Option<usize>) -> (out: Vec<
    GuestSearchResult,
>)
    ensures
        views(out@) == search_guests_model(store@, q@, limit_of(limit, 100)),
{
    let lim = effective_limit(limit, 100);
    let tokens = tokens_of(q);
    if tokens.len() == 0 {
        return fetch_default_results(store, lim);
    }
    let hits = keep_first(
        rank::<GuestSearchResult, ByRelevance>(store.select(&GuestFilter::Prefixes(tokens))),
        lim,
    );
    if hits.len() > 0 {
        return hits;
    }
    let wanted = fold_text(&trim_text(&chars_of(q)));
    keep_first(
        rank::<GuestSearchResult, ByName>(store.select(&GuestFilter::Containing(wanted))),
        lim,
    )
}

/// The guests of a host, in alphabetical order.
pub fn guests_for_member(store: &GuestStore, member_host: &str) -> (out: Vec<GuestSearchResult>)
    ensures
        views(out@) == guests_for_member_model(store@, member_host@),
{
    let host = trim_text(&chars_of(member_host));
    if host.len() == 0 {
        let out: Vec<GuestSearchResult> = Vec::new();
        assert(views(out@) =~= Seq::<GuestResultView>::empty());
        return out;
    }
    rank::<GuestSearchResult, ByName>(store.select(&GuestFilter::HostedBy(fold_text(&host))))
}

/// Alphabetical order is consistent.
pub proof fn law_by_name_consistent()
    ensures
        consistent::<GuestSearchResult, ByName>(),
{
    assert forall|a: GuestResultView, b: GuestResultView| #[trigger]
        ByName::before(a, b) implies !ByName::before(b, a) by {
        lemma_text_before_one_way(a.display_name, b.display_name);
    }
    assert forall|a: GuestResultView, b: GuestResultView, c: GuestResultView|
        !#[trigger] ByName::before(b, a) && !#[trigger] ByName::before(c, b) implies !ByName::before(
        c,
        a,
    ) by {
        lemma_text_before_chain(a.display_name, b.display_name, c.display_name);
    }
}

/// Order by relevance is consistent.
pub proof fn law_by_relevance_consistent()
    ensures
        consistent::<GuestSearchResult, ByRelevance>(),
{
    assert forall|a: GuestResultView, b: GuestResultView| #[trigger]
        ByRelevance::before(a, b) implies !ByRelevance::before(b, a) by {
        if text_before(a.display_name, b.display_name) {
            lemma_text_before_one_way(a.display_name, b.display_name);
        }
    }
    assert forall|a: GuestResultView, b: GuestResultView, c: GuestResultView|
        !#[trigger] ByRelevance::before(b, a) && !#[trigger] ByRelevance::before(
            c,
            b,
        ) implies !ByRelevance::before(c, a) by {
        if word_count(a.display_name) == word_count(b.display_name) && word_count(b.display_name)
            == word_count(c.display_name) {
            lemma_text_before_chain(a.display_name, b.display_name, c.display_name);
        }
    }
}

/// Order of hosts by presence is consistent.
pub proof fn law_by_presence_consistent()
    ensures
        consistent::<MemberSearchResult, ByPresence>(),
{
}

/// The first items of a sequence in order are in order.
pub proof fn lemma_first_n_in_order<T: View, O: Order<T>>(items: Seq<T::V>, n: nat)
    requires
        in_order::<T, O>(items),
    ensures
        in_order::<T, O>(first_n(items, n)),
{
    let head = first_n(items, n);
    assert forall|i: int, j: int| 0 <= i < j < head.len() implies !O::before(head[j], head[i]) by {
        assert(head[i] == items[i] && head[j] == items[j]);
    }
}

/// A query without anything but white space lists every guest in
/// alphabetical order, up to the limit: no name of the list comes before
/// an earlier one.
pub proof fn law_empty_query_lists_all(s: StoreView, query: Seq<char>, lim: nat)
    requires
        trimmed(query).len() == 0,
    ensures
        search_guests_model(s, query, lim) == default_results(s, lim),
        in_order::<GuestSearchResult, ByName>(default_results(s, lim)),
        lim >= s.guests.len() ==> default_results(s, lim).len() == s.guests.len(),
{
    let all = selected(s, FilterView::All, s.guests.len() as int);
    law_by_name_consistent();
    lemma_ranked_in_order::<GuestSearchResult, ByName>(all);
    lemma_first_n_in_order::<GuestSearchResult, ByName>(
        ranked::<GuestSearchResult, ByName>(all),
        lim,
    );
    lemma_ranked_rearranges::<GuestSearchResult, ByName>(all);
    lemma_selected_all(s, s.guests.len() as int);
}

/// The filter that takes every guest leaves none out.
pub proof fn lemma_selected_all(s: StoreView, upto: int)
    requires
        0 <= upto <= s.guests.len(),
    ensures
        selected(s, FilterView::All, upto).len() == upto,
    decreases upto,
{
    if upto > 0 {
        lemma_selected_all(s, upto - 1);
    }
}

/// Every guest that a filter selects passes it, and is a guest of the
/// store.
pub proof fn law_selected_pass(s: StoreView, filter: FilterView, upto: int)
    requires
        0 <= upto <= s.guests.len(),
    ensures
        forall|k: int|
            0 <= k < selected(s, filter, upto).len() ==> exists|i: int|
                0 <= i < upto && passes(s.guests[i], filter) && #[trigger] selected(
                    s,
                    filter,
                    upto,
                )[k] == result_of(s, i),
    decreases upto,
{
    if upto > 0 {
        law_selected_pass(s, filter, upto - 1);
        let before = selected(s, filter, upto - 1);
        let now = selected(s, filter, upto);
        assert forall|k: int| 0 <= k < now.len() implies exists|i: int|
            0 <= i < upto && passes(s.guests[i], filter) && #[trigger] now[k] == result_of(
                s,
                i,
            ) by {
            if k < before.len() {
                let i = choose|i: int|
                    0 <= i < upto - 1 && passes(s.guests[i], filter) && before[k] == result_of(
                        s,
                        i,
                    );
                assert(now[k] == before[k]);
                assert(0 <= i < upto && passes(s.guests[i], filter) && now[k] == result_of(s, i));
            } else {
                assert(now[k] == result_of(s, upto - 1));
            }
        }
    }
}

/// Every guest that passes a filter is among those that it selects.
pub proof fn law_selected_complete(s: StoreView, filter: FilterView, upto: int, i: int)
    requires
        0 <= i < upto <= s.guests.len(),
        passes(s.guests[i], filter),
    ensures
        selected(s, filter, upto).contains(result_of(s, i)),
    decreases upto,
{
    let now = selected(s, filter, upto);
    if i == upto - 1 {
        assert(now[now.len() - 1] == result_of(s, i));
    } else {
        law_selected_complete(s, filter, upto - 1, i);
        let before = selected(s, filter, upto - 1);
        let k = choose|k: int| 0 <= k < before.len() && before[k] == result_of(s, i);
        assert(now[k] == result_of(s, i));
    }
}

/// Whether `found` is a guest of the store that the filter takes, as a
/// search reports it.
pub open spec fn is_match(s: StoreView, filter: FilterView, found: GuestResultView) -> bool {
    exists|i: int|
        0 <= i < s.guests.len() && passes(s.guests[i], filter) && found == #[trigger] result_of(
            s,
            i,
        )
}

/// Each of the first guests that a filter selects, put in any order, is a
/// guest that the filter takes.
pub proof fn lemma_listed_are_matches<O: Order<GuestSearchResult>>(
    s: StoreView,
    filter: FilterView,
    lim: nat,
)
    ensures
        forall|k: int|
            0 <= k < first_n(
                ranked::<GuestSearchResult, O>(selected(s, filter, s.guests.len() as int)),
                lim,
            ).len() ==> is_match(
                s,
                filter,
                #[trigger] first_n(
                    ranked::<GuestSearchResult, O>(selected(s, filter, s.guests.len() as int)),
                    lim,
                )[k],
            ),
{
    let n = s.guests.len() as int;
    let chosen = selected(s, filter, n);
    let sorted = ranked::<GuestSearchResult, O>(chosen);
    let listed = first_n(sorted, lim);
    lemma_ranked_members::<GuestSearchResult, O>(chosen);
    law_selected_pass(s, filter, n);
    assert forall|k: int| 0 <= k < listed.len() implies is_match(s, filter, #[trigger] listed[k]) by {
        assert(sorted[k] == listed[k]);
        assert(sorted.contains(listed[k]));
        assert(chosen.contains(listed[k]));
        let m = choose|m: int| 0 <= m < chosen.len() && chosen[m] == listed[k];
        let i = choose|i: int|
            0 <= i < n && passes(s.guests[i], filter) && #[trigger] chosen[m] == result_of(s, i);
        assert(listed[k] == result_of(s, i));
    }
}

/// A search with tokens returns guests of which each token begins a word,
/// wherever the store has such a guest and the limit lets one through; and
/// where the store has none, guests whose name contains the query.
pub proof fn law_search_returns_matches(s: StoreView, query: Seq<char>, lim: nat)
    requires
        query_tokens(query).len() > 0,
        lim > 0,
    ensures
        ({
            let by_tokens = FilterView::Prefixes(query_tokens(query));
            let by_text = FilterView::Containing(folded(trimmed(query)));
            let found = search_guests_model(s, query, lim);
            if exists|i: int| 0 <= i < s.guests.len() && passes(#[trigger] s.guests[i], by_tokens) {
                found.len() > 0 && forall|k: int|
                    0 <= k < found.len() ==> is_match(s, by_tokens, #[trigger] found[k])
            } else {
                forall|k: int| 0 <= k < found.len() ==> is_match(s, by_text, #[trigger] found[k])
            }
        }),
{
    let n = s.guests.len() as int;
    let by_tokens = FilterView::Prefixes(query_tokens(query));
    let by_text = FilterView::Containing(folded(trimmed(query)));
    let chosen = selected(s, by_tokens, n);
    lemma_listed_are_matches::<ByRelevance>(s, by_tokens, lim);
    lemma_listed_are_matches::<ByName>(s, by_text, lim);
    lemma_ranked_rearranges::<GuestSearchResult, ByRelevance>(chosen);
    if exists|i: int| 0 <= i < s.guests.len() && passes(#[trigger] s.guests[i], by_tokens) {
        let i = choose|i: int| 0 <= i < s.guests.len() && passes(#[trigger] s.guests[i], by_tokens);
        law_selected_complete(s, by_tokens, n, i);
        assert(chosen.len() > 0);
    } else {
        law_selected_pass(s, by_tokens, n);
        if chosen.len() > 0 {
            let i = choose|i: int|
                0 <= i < n && passes(s.guests[i], by_tokens) && #[trigger] chosen[0] == result_of(
                    s,
                    i,
                );
            assert(passes(s.guests[i], by_tokens));
        }
    }
}

/// A search returns no more guests than its limit lets through, and the
/// limit is never above the cap.
pub proof fn law_search_within_limit(s: StoreView, query: Seq<char>, limit: Option<usize>, cap: usize)
    ensures
        limit_of(limit, cap) <= cap,
        search_guests_model(s, query, limit_of(limit, cap)).len() <= limit_of(limit, cap),
{
}

/// What a search with tokens returns is in order: by relevance where a
/// token search found guests, alphabetically where the list is that of the
/// guests whose name contains the query.
pub proof fn law_search_results_in_order(s: StoreView, query: Seq<char>, lim: nat)
    requires
        query_tokens(query).len() > 0,
    ensures
        in_order::<GuestSearchResult, ByRelevance>(search_guests_model(s, query, lim))
            || in_order::<GuestSearchResult, ByName>(search_guests_model(s, query, lim)),
{
    let n = s.guests.len() as int;
    let tokens = query_tokens(query);
    let found = ranked::<GuestSearchResult, ByRelevance>(
        selected(s, FilterView::Prefixes(tokens), n),
    );
    law_by_relevance_consistent();
    lemma_ranked_in_order::<GuestSearchResult, ByRelevance>(
        selected(s, FilterView::Prefixes(tokens), n),
    );
    lemma_first_n_in_order::<GuestSearchResult, ByRelevance>(found, lim);
    let held = selected(s, FilterView::Containing(folded(trimmed(query))), n);
    law_by_name_consistent();
    lemma_ranked_in_order::<GuestSearchResult, ByName>(held);
    lemma_first_n_in_order::<GuestSearchResult, ByName>(
        ranked::<GuestSearchResult, ByName>(held),
        lim,
    );
}

} // verus!
