use crate::errors::APIError;
use vstd::prelude::*;
use vstd::string::*;

verus! {

/// Where a listing stands: the token that asks for the next page, and whether the
/// endpoint has said that nothing follows.
pub struct Cursor {
    pub after: Option<String>,
    pub exhausted: bool,
}

/// One decoded page: its items in the order the endpoint gave them, and the token
/// for the page after it.
pub struct ListingPage<T> {
    pub items: Vec<T>,
    pub after: Option<String>,
}

/// A forward-only walk over a paged collection. It never talks to the network
/// itself: `next` says what to do, and `resolve` takes what the transport brought.
pub struct Listing<T> {
    pub url: String,
    pub buffer: Vec<T>,
    pub cursor: Cursor,
}

/// What `Listing::next` asks of its caller.
pub enum Step<T> {
    /// The next item of the sequence.
    Item(T),
    /// The buffer is empty: fetch this URL and hand the outcome to `resolve`.
    Fetch(String),
    /// The sequence has ended; it stays ended.
    Finished,
}

/// The part of a listing that decides what happens next.
pub struct ListingState<T> {
    pub buffer: Seq<T>,
    pub after: Option<String>,
    pub exhausted: bool,
}

impl<T> View for Listing<T> {
    type V = ListingState<T>;

    open spec fn view(&self) -> ListingState<T> {
        ListingState {
            buffer: self.buffer@,
            after: self.cursor.after,
            exhausted: self.cursor.exhausted,
        }
    }
}

/// The state of a listing on which nothing has been fetched.
pub open spec fn fresh<T>() -> ListingState<T> {
    ListingState { buffer: Seq::empty(), after: None, exhausted: false }
}

/// The state after a page has arrived: the page's items are the buffer, its token
/// is the cursor, and an empty page or a missing token ends the listing.
pub open spec fn received<T>(items: Seq<T>, after: Option<String>) -> ListingState<T> {
    ListingState { buffer: items, after, exhausted: items.len() == 0 || after is None }
}

/// The state after the head of the buffer has been handed out.
pub open spec fn popped<T>(s: ListingState<T>) -> ListingState<T> {
    ListingState { buffer: s.buffer.skip(1), after: s.after, exhausted: s.exhausted }
}

/// The URL of the page that follows `after`: the base URL alone for the first
/// page, else the base URL with the query parameter `after`.
pub open spec fn page_url(base: Seq<char>, after: Option<String>) -> Seq<char> {
    match after {
        None => base,
        Some(token) => base + (if base.contains('?') {
            "&after="@
        } else {
            "?after="@
        }) + token@,
    }
}

/// Everything a listing in state `s` hands out when its fetches are answered by
/// `pages`, one after the other, until it finishes or the pages run out.
pub open spec fn yielded<T>(s: ListingState<T>, pages: Seq<ListingPage<T>>) -> Seq<T>
    decreases pages.len(), s.buffer.len(),
{
    if s.buffer.len() > 0 {
        seq![s.buffer[0]] + yielded(popped(s), pages)
    } else if !s.exhausted && pages.len() > 0 {
        yielded(received(pages[0].items@, pages[0].after), pages.skip(1))
    } else {
        Seq::empty()
    }
}

/// The state in which the walk of `yielded` comes to rest.
pub open spec fn settled<T>(s: ListingState<T>, pages: Seq<ListingPage<T>>) -> ListingState<T>
    decreases pages.len(), s.buffer.len(),
{
    if s.buffer.len() > 0 {
        settled(popped(s), pages)
    } else if !s.exhausted && pages.len() > 0 {
        settled(received(pages[0].items@, pages[0].after), pages.skip(1))
    } else {
        s
    }
}

/// The items of all pages, in order.
pub open spec fn all_items<T>(pages: Seq<ListingPage<T>>) -> Seq<T>
    decreases pages.len(),
{
    if pages.len() == 0 {
        Seq::empty()
    } else {
        pages[0].items@ + all_items(pages.skip(1))
    }
}

/// A finite collection as a well-behaved endpoint serves it: no page is empty,
/// and exactly the last page comes without a token.
pub open spec fn well_paged<T>(pages: Seq<ListingPage<T>>) -> bool {
    &&& pages.len() > 0
    &&& forall|i: int| 0 <= i < pages.len() ==> (#[trigger] pages[i]).items@.len() > 0
    &&& forall|i: int| 0 <= i < pages.len() ==> ((#[trigger] pages[i]).after is None <==> i == pages.len() - 1)
}

/// True when the text holds a question mark.
fn has_query(url: &str) -> (r: bool)
    ensures
        r == url@.contains('?'),
{
    let n: usize = url.unicode_len();
    let mut i: usize = 0;
    while i < n
        invariant
            n == url@.len(),
            i <= n,
            forall|k: int| 0 <= k < i ==> url@[k] != '?',
        decreases n - i,
    {
        if url.get_char(i) == '?' {
            return true;
        }
        i += 1;
    }
    false
}

impl<T> Listing<T> {
    /// A listing over `url` on which nothing has been fetched yet.
    pub fn new(url: String) -> (l: Listing<T>)
        ensures
            l@ == fresh::<T>(),
            l.url == url,
    {
        Listing { url, buffer: Vec::new(), cursor: Cursor { after: None, exhausted: false } }
    }

    /// The URL that asks for the page after the cursor.
    pub fn next_url(&self) -> (u: String)
        ensures
            u@ == page_url(self.url@, self.cursor.after),
    {
        match &self.cursor.after {
            None => self.url.clone(),
            Some(token) => {
                let sep = if has_query(self.url.as_str()) {
                    "&after="
                } else {
                    "?after="
                };
                self.url.clone().concat(sep).concat(token.as_str())
            },
        }
    }

    /// One step of the walk. While the buffer holds items the head is handed out.
    /// With an empty buffer the listing asks for the next page, unless the cursor
    /// is exhausted: then the walk is over, and every later call says so again
    /// without asking for anything.
    ///
    /// The tokens are taken as they come. An endpoint that keeps serving
    /// non-empty pages with a token, the same one or a cycle of them, is
    /// followed for as long as the caller goes on: nothing here looks for
    /// repeats.
    pub fn next(&mut self) -> (step: Step<T>)
        ensures
            final(self).url == old(self).url,
            final(self).cursor == old(self).cursor,
            old(self)@.buffer.len() > 0 ==> step == Step::Item(old(self)@.buffer[0]) && final(self)@
                == popped(old(self)@),
            old(self)@.buffer.len() == 0 ==> final(self)@ == old(self)@,
            old(self)@.buffer.len() == 0 && !old(self)@.exhausted ==> (step matches Step::Fetch(u)
                && u@ == page_url(old(self).url@, old(self)@.after)),
            old(self)@.buffer.len() == 0 && old(self)@.exhausted ==> step == Step::<T>::Finished,
    {
        if self.buffer.len() > 0 {
            let item = self.buffer.remove(0);
            proof {
                assert(self.buffer@ =~= old(self).buffer@.skip(1));
            }
            Step::Item(item)
        } else if !self.cursor.exhausted {
            Step::Fetch(self.next_url())
        } else {
            Step::Finished
        }
    }

    /// Takes the outcome of the fetch that `next` asked for. A page replaces the
    /// buffer and moves the cursor. A failure is handed back and leaves the
    /// listing as it was, so that the same page can be asked for again.
    pub fn resolve(&mut self, outcome: Result<ListingPage<T>, APIError>) -> (r: Result<(), APIError>)
        ensures
            final(self).url == old(self).url,
            match outcome {
                Ok(page) => r is Ok && final(self)@ == received(page.items@, page.after),
                Err(e) => r == Err::<(), APIError>(e) && *final(self) == *old(self),
            },
    {
        match outcome {
            Ok(page) => {
                let done = page.items.len() == 0 || page.after.is_none();
                self.buffer = page.items;
                self.cursor = Cursor { after: page.after, exhausted: done };
                Ok(())
            },
            Err(e) => Err(e),
        }
    }
}

impl<T> Listing<T> {
    /// Walks the listing to its end over pages that are already at hand:
    /// every fetch that `next` asks for is answered by the next of `pages`.
    /// The walk stops when the listing is finished or a page is asked for and
    /// none is left. Hands back everything that came out, in order.
    pub fn drain(&mut self, pages: Vec<ListingPage<T>>) -> (out: Vec<T>)
        ensures
            out@ == yielded(old(self)@, pages@),
            final(self)@ == settled(old(self)@, pages@),
            final(self).url == old(self).url,
    {
        let ghost all = pages@;
        let mut rest = pages;
        let mut out: Vec<T> = Vec::new();
        loop
            invariant
                self.url == old(self).url,
                out@ + yielded(self@, rest@) == yielded(old(self)@, all),
                settled(self@, rest@) == settled(old(self)@, all),
            ensures
                out@ == yielded(old(self)@, all),
                self@ == settled(old(self)@, all),
                self.url == old(self).url,
            decreases rest.len(), self.buffer.len(),
        {
            let ghost before = self@;
            let ghost held = rest@;
            let ghost got = out@;
            match self.next() {
                Step::Item(item) => {
                    out.push(item);
                    proof {
                        assert(out@ + yielded(self@, rest@) =~= got + (seq![item] + yielded(
                            self@,
                            rest@,
                        )));
                    }
                },
                Step::Fetch(_) => {
                    if rest.len() == 0 {
                        proof {
                            assert(out@ + Seq::<T>::empty() =~= out@);
                        }
                        break ;
                    }
                    let page = rest.remove(0);
                    proof {
                        assert(rest@ =~= held.skip(1));
                    }
                    let _ = self.resolve(Ok(page));
                },
                Step::Finished => {
                    proof {
                        assert(out@ + Seq::<T>::empty() =~= out@);
                    }
                    break ;
                },
            }
        }
        out
    }
}

/// What sits in the buffer comes out first, before anything that is fetched.
proof fn lemma_buffer_first<T>(s: ListingState<T>, pages: Seq<ListingPage<T>>)
    ensures
        yielded(s, pages) == s.buffer + yielded(
            ListingState { buffer: Seq::empty(), after: s.after, exhausted: s.exhausted },
            pages,
        ),
        settled(s, pages) == settled(
            ListingState { buffer: Seq::empty(), after: s.after, exhausted: s.exhausted },
            pages,
        ),
    decreases s.buffer.len(),
{
    let e = ListingState { buffer: Seq::<T>::empty(), after: s.after, exhausted: s.exhausted };
    if s.buffer.len() > 0 {
        lemma_buffer_first(popped(s), pages);
        assert(popped(s).buffer =~= s.buffer.skip(1));
        assert(s.buffer =~= seq![s.buffer[0]] + s.buffer.skip(1));
        assert(yielded(s, pages) =~= s.buffer + yielded(e, pages));
    } else {
        assert(s.buffer =~= Seq::<T>::empty());
        assert(s == e);
        assert(yielded(s, pages) =~= s.buffer + yielded(e, pages));
    }
}

/// From any state that is waiting for a page, a well-paged collection comes out
/// whole and in order, and the walk ends exhausted with an empty buffer.
proof fn lemma_walk<T>(s: ListingState<T>, pages: Seq<ListingPage<T>>)
    requires
        s.buffer.len() == 0,
        !s.exhausted,
        well_paged(pages),
    ensures
        yielded(s, pages) == all_items(pages),
        settled(s, pages).buffer.len() == 0,
        settled(s, pages).exhausted,
    decreases pages.len(),
{
    let first = received(pages[0].items@, pages[0].after);
    let rest = pages.skip(1);
    let waiting = ListingState { buffer: Seq::<T>::empty(), after: first.after, exhausted: first.exhausted };
    lemma_buffer_first(first, rest);
    if pages.len() == 1 {
        assert(rest.len() == 0);
        assert(all_items(rest) =~= Seq::<T>::empty());
        assert(yielded(waiting, rest) =~= Seq::<T>::empty());
        assert(yielded(s, pages) =~= all_items(pages));
    } else {
        assert forall|i: int| 0 <= i < rest.len() implies (#[trigger] rest[i]).items@.len() > 0 && (
        rest[i].after is None <==> i == rest.len() - 1) by {
            assert(rest[i] == pages[i + 1]);
        }
        lemma_walk(waiting, rest);
    }
}

/// A listing that starts fresh on a finite collection, served in pages none of
/// which is empty and only the last of which lacks a token, hands out exactly
/// the pages' items in order. It then rests with an empty buffer and an
/// exhausted cursor: the state in which `next` answers `Finished` and changes
/// nothing, however often it is called.
pub proof fn lemma_pagination_terminates<T>(pages: Seq<ListingPage<T>>)
    requires
        well_paged(pages),
    ensures
        yielded(fresh::<T>(), pages) == all_items(pages),
        settled(fresh::<T>(), pages).buffer.len() == 0,
        settled(fresh::<T>(), pages).exhausted,
        yielded(settled(fresh::<T>(), pages), pages) == Seq::<T>::empty(),
        settled(settled(fresh::<T>(), pages), pages) == settled(fresh::<T>(), pages),
{
    lemma_walk(fresh::<T>(), pages);
}

} // verus!
