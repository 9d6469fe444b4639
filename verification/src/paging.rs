//! Drivers for the two pagination disciplines of the listing endpoints.
//!
//! A pager holds what has been fetched so far and says what to request next;
//! the caller performs the request and hands the page back. A pager gives its
//! items up only once the enumeration is complete, so that nothing is ever
//! decided on part of a listing.
//!
//! *Offset paging* asks for page 1, 2, ... of a fixed size and stops at the
//! first page that is shorter than that size. A page of exactly that size
//! never ends the enumeration, even where the next page turns out empty.
//!
//! *Cursor paging* follows the continuation token of each response and stops
//! at the first response without one.

use vstd::prelude::*;

verus! {

/// The state of an offset enumeration.
pub struct OffsetState<T> {
    /// The items of the pages taken so far, in order.
    pub items: Seq<T>,
    /// How many pages were taken.
    pub pages: nat,
    /// Whether a short page has been seen.
    pub complete: bool,
}

/// The state of a cursor enumeration.
pub struct CursorState<T> {
    /// The items of the pages taken so far, in order.
    pub items: Seq<T>,
    /// The continuation token of the last page taken.
    pub token: Option<Seq<char>>,
    /// How many pages were taken.
    pub pages: nat,
    /// Whether a page without continuation token has been seen.
    pub complete: bool,
}

/// An offset enumeration before its first request.
pub open spec fn offset_start<T>() -> OffsetState<T> {
    OffsetState { items: Seq::empty(), pages: 0, complete: false }
}

/// The state after `page` came back. A page that arrives after the
/// enumeration is complete is not part of it.
pub open spec fn offset_step<T>(page_size: nat, s: OffsetState<T>, page: Seq<T>) -> OffsetState<T> {
    if s.complete {
        s
    } else {
        OffsetState { items: s.items + page, pages: s.pages + 1, complete: page.len() < page_size }
    }
}

/// The state after the pages of `source` came back one after the other.
pub open spec fn offset_run<T>(page_size: nat, source: Seq<Seq<T>>) -> OffsetState<T>
    decreases source.len(),
{
    if source.len() == 0 {
        offset_start()
    } else {
        offset_step(page_size, offset_run(page_size, source.drop_last()), source.last())
    }
}

/// A cursor enumeration before its first request.
pub open spec fn cursor_start<T>() -> CursorState<T> {
    CursorState { items: Seq::empty(), token: None, pages: 0, complete: false }
}

/// The state after a page came back with the continuation token `next`.
pub open spec fn cursor_step<T>(
    s: CursorState<T>,
    page: Seq<T>,
    next: Option<Seq<char>>,
) -> CursorState<T> {
    if s.complete {
        s
    } else {
        CursorState { items: s.items + page, token: next, pages: s.pages + 1, complete: next is None }
    }
}

/// The state after the responses of `source` came back one after the other.
pub open spec fn cursor_run<T>(source: Seq<(Seq<T>, Option<Seq<char>>)>) -> CursorState<T>
    decreases source.len(),
{
    if source.len() == 0 {
        cursor_start()
    } else {
        cursor_step(cursor_run(source.drop_last()), source.last().0, source.last().1)
    }
}

/// The pages of cursor responses, without their tokens.
pub open spec fn pages_of<T>(source: Seq<(Seq<T>, Option<Seq<char>>)>) -> Seq<Seq<T>> {
    source.map_values(|r: (Seq<T>, Option<Seq<char>>)| r.0)
}

/// Offset paging over any source, whose page `i + 1` is `source[i]`: where
/// page `n + 1` is the first short one, the enumeration is complete after
/// exactly `n + 1` pages and not before, it holds the concatenation of those
/// pages, and no later page is taken.
pub proof fn lemma_offset_enumeration<T>(page_size: nat, source: Seq<Seq<T>>, n: int)
    requires
        0 <= n < source.len(),
        source[n].len() < page_size,
        forall|i: int| 0 <= i < n ==> (#[trigger] source[i]).len() >= page_size,
    ensures
        forall|k: int| 0 <= k <= n ==> !(#[trigger] offset_run(page_size, source.take(k))).complete,
        offset_run(page_size, source.take(n + 1)) == (OffsetState {
            items: source.take(n + 1).flatten(),
            pages: (n + 1) as nat,
            complete: true,
        }),
        offset_run(page_size, source) == offset_run(page_size, source.take(n + 1)),
{
    assert forall|k: int| 0 <= k <= n implies !(#[trigger] offset_run(
        page_size,
        source.take(k),
    )).complete by {
        lemma_offset_prefix(page_size, source, k);
    }
    lemma_offset_prefix(page_size, source, n);
    assert(source.take(n + 1).drop_last() =~= source.take(n));
    assert(source.take(n + 1).last() == source[n]);
    source.take(n).lemma_flatten_push(source[n]);
    assert(source.take(n).push(source[n]) =~= source.take(n + 1));
    lemma_offset_complete_stays(page_size, source, n + 1);
}

/// Cursor paging over any source: where response `n + 1` is the first without
/// a continuation token, the enumeration is complete after exactly `n + 1`
/// responses and not before, it holds the concatenation of their pages, and no
/// later response is taken.
pub proof fn lemma_cursor_enumeration<T>(source: Seq<(Seq<T>, Option<Seq<char>>)>, n: int)
    requires
        0 <= n < source.len(),
        source[n].1 is None,
        forall|i: int| 0 <= i < n ==> (#[trigger] source[i]).1 is Some,
    ensures
        forall|k: int| 0 <= k <= n ==> !(#[trigger] cursor_run(source.take(k))).complete,
        cursor_run(source.take(n + 1)) == (CursorState {
            items: pages_of(source.take(n + 1)).flatten(),
            token: None,
            pages: (n + 1) as nat,
            complete: true,
        }),
        cursor_run(source) == cursor_run(source.take(n + 1)),
{
    assert forall|k: int| 0 <= k <= n implies !(#[trigger] cursor_run(source.take(k))).complete by {
        lemma_cursor_prefix(source, k);
    }
    lemma_cursor_prefix(source, n);
    assert(source.take(n + 1).drop_last() =~= source.take(n));
    assert(source.take(n + 1).last() == source[n]);
    pages_of(source.take(n)).lemma_flatten_push(source[n].0);
    assert(pages_of(source.take(n)).push(source[n].0) =~= pages_of(source.take(n + 1)));
    lemma_cursor_complete_stays(source, n + 1);
}

proof fn lemma_offset_prefix<T>(page_size: nat, source: Seq<Seq<T>>, k: int)
    requires
        0 <= k <= source.len(),
        forall|i: int| 0 <= i < k ==> (#[trigger] source[i]).len() >= page_size,
    ensures
        offset_run(page_size, source.take(k)) == (OffsetState {
            items: source.take(k).flatten(),
            pages: k as nat,
            complete: false,
        }),
    decreases k,
{
    if k == 0 {
        assert(source.take(0) =~= Seq::<Seq<T>>::empty());
    } else {
        lemma_offset_prefix(page_size, source, k - 1);
        assert(source.take(k).drop_last() =~= source.take(k - 1));
        assert(source.take(k).last() == source[k - 1]);
        source.take(k - 1).lemma_flatten_push(source[k - 1]);
        assert(source.take(k - 1).push(source[k - 1]) =~= source.take(k));
    }
}

proof fn lemma_offset_complete_stays<T>(page_size: nat, source: Seq<Seq<T>>, k: int)
    requires
        0 <= k <= source.len(),
        offset_run(page_size, source.take(k)).complete,
    ensures
        offset_run(page_size, source) == offset_run(page_size, source.take(k)),
    decreases source.len() - k,
{
    if k == source.len() {
        assert(source.take(k) =~= source);
    } else {
        assert(source.take(k + 1).drop_last() =~= source.take(k));
        lemma_offset_complete_stays(page_size, source, k + 1);
    }
}

proof fn lemma_cursor_prefix<T>(source: Seq<(Seq<T>, Option<Seq<char>>)>, k: int)
    requires
        0 <= k <= source.len(),
        forall|i: int| 0 <= i < k ==> (#[trigger] source[i]).1 is Some,
    ensures
        cursor_run(source.take(k)).items == pages_of(source.take(k)).flatten(),
        cursor_run(source.take(k)).pages == k,
        !cursor_run(source.take(k)).complete,
    decreases k,
{
    if k == 0 {
        assert(source.take(0) =~= Seq::<(Seq<T>, Option<Seq<char>>)>::empty());
        assert(pages_of(source.take(0)) =~= Seq::<Seq<T>>::empty());
    } else {
        lemma_cursor_prefix(source, k - 1);
        assert(source.take(k).drop_last() =~= source.take(k - 1));
        assert(source.take(k).last() == source[k - 1]);
        pages_of(source.take(k - 1)).lemma_flatten_push(source[k - 1].0);
        assert(pages_of(source.take(k - 1)).push(source[k - 1].0) =~= pages_of(source.take(k)));
    }
}

proof fn lemma_cursor_complete_stays<T>(source: Seq<(Seq<T>, Option<Seq<char>>)>, k: int)
    requires
        0 <= k <= source.len(),
        cursor_run(source.take(k)).complete,
    ensures
        cursor_run(source) == cursor_run(source.take(k)),
    decreases source.len() - k,
{
    if k == source.len() {
        assert(source.take(k) =~= source);
    } else {
        assert(source.take(k + 1).drop_last() =~= source.take(k));
        lemma_cursor_complete_stays(source, k + 1);
    }
}

/// An offset enumeration in progress.
pub struct OffsetPager<T> {
    page_size: usize,
    items: Vec<T>,
    pages: u64,
    complete: bool,
}

impl<T> View for OffsetPager<T> {
    type V = OffsetState<T>;

    closed spec fn view(&self) -> OffsetState<T> {
        OffsetState { items: self.items@, pages: self.pages as nat, complete: self.complete }
    }
}

impl<T> OffsetPager<T> {
    /// The fixed page size of the enumeration.
    pub closed spec fn size(&self) -> nat {
        self.page_size as nat
    }

    /// An enumeration with pages of `page_size` items, before its first
    /// request. With a page size of 0 no page is short, and the enumeration
    /// never completes.
    pub fn new(page_size: usize) -> (pager: Self)
        ensures
            pager@ == offset_start::<T>(),
            pager.size() == page_size,
    {
        OffsetPager { page_size, items: Vec::new(), pages: 0, complete: false }
    }

    /// The page size to request.
    pub fn page_size(&self) -> (n: usize)
        ensures
            n == self.size(),
    {
        self.page_size
    }

    /// The number of the page to request next, counted from 1; `None` once the
    /// enumeration is complete, and also where `u64::MAX` pages were taken and
    /// no page number is left.
    pub fn next_page(&self) -> (page: Option<u64>)
        ensures
            page == if self@.complete || self@.pages == u64::MAX {
                None
            } else {
                Some((self@.pages + 1) as u64)
            },
    {
        if self.complete || self.pages == u64::MAX {
            None
        } else {
            Some(self.pages + 1)
        }
    }

    /// Takes the page that came back for [`next_page`](Self::next_page).
    pub fn accept(&mut self, page: Vec<T>)
        requires
            old(self)@.pages < u64::MAX,
        ensures
            final(self)@ == offset_step(old(self).size(), old(self)@, page@),
            final(self).size() == old(self).size(),
    {
        if !self.complete {
            let mut page = page;
            let short = page.len() < self.page_size;
            self.items.append(&mut page);
            self.pages = self.pages + 1;
            self.complete = short;
        }
    }

    /// Whether a short page has been seen.
    pub fn is_complete(&self) -> (done: bool)
        ensures
            done == self@.complete,
    {
        self.complete
    }

    /// How many pages were requested and taken.
    pub fn requests(&self) -> (n: u64)
        ensures
            n == self@.pages,
    {
        self.pages
    }

    /// The whole collection, once the enumeration is complete; `None` before
    /// that.
    pub fn finish(self) -> (items: Option<Vec<T>>)
        ensures
            match items {
                Some(v) => self@.complete && v@ == self@.items,
                None => !self@.complete,
            },
    {
        if self.complete {
            Some(self.items)
        } else {
            None
        }
    }
}

/// What a cursor enumeration asks for next.
#[derive(Debug, Clone, PartialEq, Eq)]
pub enum CursorRequest {
    /// The first page, requested without a token.
    First,
    /// The page that the given continuation token names.
    Continue { token: String },
}

/// A cursor enumeration in progress.
pub struct CursorPager<T> {
    items: Vec<T>,
    token: Option<String>,
    pages: Ghost<nat>,
    complete: bool,
}

impl<T> View for CursorPager<T> {
    type V = CursorState<T>;

    closed spec fn view(&self) -> CursorState<T> {
        CursorState {
            items: self.items@,
            token: match self.token {
                Some(t) => Some(t@),
                None => None,
            },
            pages: self.pages@,
            complete: self.complete,
        }
    }
}

impl<T> CursorPager<T> {
    /// An enumeration before its first request.
    pub fn new() -> (pager: Self)
        ensures
            pager@ == cursor_start::<T>(),
    {
        CursorPager { items: Vec::new(), token: None, pages: Ghost(0), complete: false }
    }

    /// What to request next; `None` once the enumeration is complete.
    pub fn next_request(&self) -> (request: Option<CursorRequest>)
        ensures
            match request {
                None => self@.complete,
                Some(CursorRequest::First) => !self@.complete && self@.token is None,
                Some(CursorRequest::Continue { token }) => !self@.complete && self@.token == Some(
                    token@,
                ),
            },
    {
        if self.complete {
            None
        } else {
            match &self.token {
                Some(t) => Some(CursorRequest::Continue { token: t.clone() }),
                None => Some(CursorRequest::First),
            }
        }
    }

    /// Takes the page that came back, with its continuation token.
    pub fn accept(&mut self, page: Vec<T>, next: Option<String>)
        ensures
            final(self)@ == cursor_step(
                old(self)@,
                page@,
                match next {
                    Some(t) => Some(t@),
                    None => None,
                },
            ),
    {
        if !self.complete {
            let mut page = page;
            self.items.append(&mut page);
            self.pages = Ghost((self.pages@ + 1) as nat);
            self.complete = next.is_none();
            self.token = next;
        }
    }

    /// Whether a page without continuation token has been seen.
    pub fn is_complete(&self) -> (done: bool)
        ensures
            done == self@.complete,
    {
        self.complete
    }

    /// The whole collection, once the enumeration is complete; `None` before
    /// that.
    pub fn finish(self) -> (items: Option<Vec<T>>)
        ensures
            match items {
                Some(v) => self@.complete && v@ == self@.items,
                None => !self@.complete,
            },
    {
        if self.complete {
            Some(self.items)
        } else {
            None
        }
    }
}

/// The contents of a list of pages.
pub open spec fn page_views<T>(taken: Seq<Vec<T>>) -> Seq<Seq<T>> {
    taken.map_values(|p: Vec<T>| p@)
}

/// Every page of `taken` but the last is full.
pub open spec fn full_before_last<T>(page_size: usize, taken: Seq<Vec<T>>) -> bool {
    forall|i: int| 0 <= i < taken.len() - 1 ==> (#[trigger] taken[i])@.len() >= page_size
}

/// Each page of `taken` is an answer that `fetch` may give to the request
/// for the page of its number.
pub open spec fn answers_by_number<T, E, F: Fn(u64) -> Result<Vec<T>, E>>(
    fetch: F,
    taken: Seq<Vec<T>>,
) -> bool {
    forall|i: int|
        0 <= i < taken.len() ==> call_ensures(
            fetch,
            ((i + 1) as u64,),
            Ok::<Vec<T>, E>(#[trigger] taken[i]),
        )
}

/// The token that the request for response `i` of `taken` carries: none for
/// the first, the one of the response before for every other.
pub open spec fn token_for<T>(taken: Seq<(Vec<T>, Option<String>)>, i: int) -> Option<String> {
    if i == 0 {
        None
    } else {
        taken[i - 1].1
    }
}

/// Every response of `taken` but the last carries a continuation token.
pub open spec fn continued_before_last<T>(taken: Seq<(Vec<T>, Option<String>)>) -> bool {
    forall|i: int| 0 <= i < taken.len() - 1 ==> (#[trigger] taken[i]).1 is Some
}

/// Each response of `taken` is an answer that `fetch` may give to the
/// request with the token of the response before it.
pub open spec fn answers_by_token<T, E, F: Fn(Option<String>) -> Result<
    (Vec<T>, Option<String>),
    E,
>>(fetch: F, taken: Seq<(Vec<T>, Option<String>)>) -> bool {
    forall|i: int|
        0 <= i < taken.len() ==> call_ensures(
            fetch,
            (token_for(taken, i),),
            Ok::<(Vec<T>, Option<String>), E>(#[trigger] taken[i]),
        )
}

/// The pages of a list of responses.
pub open spec fn response_pages<T>(taken: Seq<(Vec<T>, Option<String>)>) -> Seq<Seq<T>> {
    taken.map_values(|r: (Vec<T>, Option<String>)| r.0@)
}

/// Enumerates a listing by offset paging: asks `fetch` for page 1, 2, ...
/// until a page is shorter than `page_size`, and gives the concatenation of
/// all pages that came back. No page is asked for twice and none after the
/// short one. The first failure of `fetch` ends the enumeration and is
/// handed on. `Ok(None)` says that `u64::MAX` full pages came back and no
/// page number is left.
pub fn fetch_all<T, E, F: Fn(u64) -> Result<Vec<T>, E>>(page_size: usize, fetch: F) -> (r: Result<
    Option<Vec<T>>,
    E,
>)
    requires
        forall|page: u64| call_requires(fetch, (page,)),
    ensures
        match r {
            Ok(Some(items)) => exists|taken: Seq<Vec<T>>|
                #[trigger] answers_by_number::<T, E, F>(fetch, taken) && taken.len() > 0
                    && full_before_last(page_size, taken) && taken.last()@.len() < page_size
                    && items@ == page_views(taken).flatten(),
            Ok(None) => exists|taken: Seq<Vec<T>>|
                #[trigger] answers_by_number::<T, E, F>(fetch, taken) && taken.len() == u64::MAX
                    && full_before_last(page_size, taken) && taken.last()@.len() >= page_size,
            Err(e) => exists|taken: Seq<Vec<T>>|
                #[trigger] answers_by_number::<T, E, F>(fetch, taken) && taken.len() < u64::MAX
                    && full_before_last(page_size, taken) && (taken.len() > 0
                    ==> taken.last()@.len() >= page_size) && call_ensures(
                    fetch,
                    ((taken.len() + 1) as u64,),
                    Err::<Vec<T>, E>(e),
                ),
        },
{
    let mut items: Vec<T> = Vec::new();
    let mut page: u64 = 1;
    let ghost mut taken: Seq<Vec<T>> = Seq::empty();
    proof {
        assert(page_views(taken) =~= Seq::<Seq<T>>::empty());
    }
    loop
        invariant
            forall|page: u64| call_requires(fetch, (page,)),
            page == taken.len() + 1,
            answers_by_number::<T, E, F>(fetch, taken),
            forall|i: int| 0 <= i < taken.len() ==> (#[trigger] taken[i])@.len() >= page_size,
            items@ == page_views(taken).flatten(),
        decreases u64::MAX - page,
    {
        match fetch(page) {
            Err(e) => {
                return Err(e);
            },
            Ok(got) => {
                let ghost before = taken;
                let mut got = got;
                let short = got.len() < page_size;
                proof {
                    taken = before.push(got);
                    page_views(before).lemma_flatten_push(got@);
                    assert(page_views(taken) =~= page_views(before).push(got@));
                    assert forall|i: int| 0 <= i < taken.len() implies call_ensures(
                        fetch,
                        ((i + 1) as u64,),
                        Ok::<Vec<T>, E>(#[trigger] taken[i]),
                    ) by {
                        if i < before.len() {
                            assert(taken[i] == before[i]);
                        }
                    }
                    assert(answers_by_number::<T, E, F>(fetch, taken));
                    assert forall|i: int| 0 <= i < taken.len() - 1 implies (#[trigger] taken[i])@.len()
                        >= page_size by {
                        assert(taken[i] == before[i]);
                    }
                    assert(taken.last() == got);
                }
                items.append(&mut got);
                if short {
                    return Ok(Some(items));
                }
                if page == u64::MAX {
                    return Ok(None);
                }
                page += 1;
            },
        }
    }
}

/// Enumerates a listing by cursor paging: asks `fetch` for the first page
/// without a token and for every further page with the continuation token of
/// the page before, until a page comes back without one, and gives the
/// concatenation of all pages that came back. The first failure of `fetch`
/// ends the enumeration and is handed on. `Ok(None)` says that `u64::MAX`
/// pages came back, each with a token, and the enumeration was given up.
pub fn fetch_all_by_cursor<T, E, F: Fn(Option<String>) -> Result<(Vec<T>, Option<String>), E>>(
    fetch: F,
) -> (r: Result<Option<Vec<T>>, E>)
    requires
        forall|token: Option<String>| call_requires(fetch, (token,)),
    ensures
        match r {
            Ok(Some(items)) => exists|taken: Seq<(Vec<T>, Option<String>)>|
                #[trigger] answers_by_token::<T, E, F>(fetch, taken) && taken.len() > 0
                    && continued_before_last(taken) && taken.last().1 is None && items@
                    == response_pages(taken).flatten(),
            Ok(None) => exists|taken: Seq<(Vec<T>, Option<String>)>|
                #[trigger] answers_by_token::<T, E, F>(fetch, taken) && taken.len() == u64::MAX
                    && continued_before_last(taken) && taken.last().1 is Some,
            Err(e) => exists|taken: Seq<(Vec<T>, Option<String>)>|
                #[trigger] answers_by_token::<T, E, F>(fetch, taken) && taken.len() < u64::MAX
                    && continued_before_last(taken) && (taken.len() > 0 ==> taken.last().1 is Some)
                    && call_ensures(
                    fetch,
                    (token_for(taken, taken.len() as int),),
                    Err::<(Vec<T>, Option<String>), E>(e),
                ),
        },
{
    let mut items: Vec<T> = Vec::new();
    let mut token: Option<String> = None;
    let mut count: u64 = 0;
    let ghost mut taken: Seq<(Vec<T>, Option<String>)> = Seq::empty();
    proof {
        assert(response_pages(taken) =~= Seq::<Seq<T>>::empty());
    }
    loop
        invariant
            forall|token: Option<String>| call_requires(fetch, (token,)),
            count == taken.len(),
            count < u64::MAX,
            answers_by_token::<T, E, F>(fetch, taken),
            forall|i: int| 0 <= i < taken.len() ==> (#[trigger] taken[i]).1 is Some,
            token == token_for(taken, taken.len() as int),
            items@ == response_pages(taken).flatten(),
        decreases u64::MAX - count,
    {
        match fetch(token) {
            Err(e) => {
                return Err(e);
            },
            Ok(response) => {
                let ghost before = taken;
                let ghost whole = response;
                let (got, next) = response;
                let mut got = got;
                proof {
                    taken = before.push(whole);
                    response_pages(before).lemma_flatten_push(got@);
                    assert(response_pages(taken) =~= response_pages(before).push(got@));
                    assert forall|i: int| 0 <= i < taken.len() implies call_ensures(
                        fetch,
                        (token_for(taken, i),),
                        Ok::<(Vec<T>, Option<String>), E>(#[trigger] taken[i]),
                    ) by {
                        if i < before.len() {
                            assert(taken[i] == before[i]);
                            assert(token_for(taken, i) == token_for(before, i));
                        }
                    }
                }
                proof {
                    assert(answers_by_token::<T, E, F>(fetch, taken));
                    assert forall|i: int| 0 <= i < taken.len() - 1 implies (#[trigger] taken[i]).1
                        is Some by {
                        assert(taken[i] == before[i]);
                    }
                    assert(taken.last() == whole);
                }
                items.append(&mut got);
                count += 1;
                if next.is_none() {
                    return Ok(Some(items));
                }
                if count == u64::MAX {
                    return Ok(None);
                }
                token = next;
            },
        }
    }
}

} // verus!
