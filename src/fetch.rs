use vstd::prelude::*;

verus! {

/// The largest page the listing endpoint hands out; every page request asks for it.
pub const SAVED_PAGE_LIMIT: u64 = 100;

/// Page cap for a fetch of the whole saved list: far above what the service
/// keeps, low enough to stop a server that never stops handing out cursors.
pub const DEFAULT_MAX_PAGES: u64 = 1000;

/// Why a paginated fetch stopped without a complete result.
#[derive(Clone, Copy, Debug, PartialEq, Eq, Structural)]
pub enum FetchError {
    /// The request failed at the HTTP layer (network, timeout, non-2xx status).
    Transport,
    /// The response body did not decode into a page.
    Decode,
    /// The server kept handing out cursors past the configured page cap.
    PageLimitReached,
    /// The caller gave up before the last page arrived.
    Cancelled,
}

/// Where a fetch stands: still asking for pages, complete, or failed.
#[derive(Clone, Copy, Debug, PartialEq, Eq, Structural)]
pub enum Phase {
    Fetching,
    Done,
    Failed(FetchError),
}

/// What the fetcher reads of one decoded page: its item count and its next cursor.
pub struct PageMeta {
    pub dist: u64,
    pub after: Option<Seq<char>>,
}

/// One answer of the server to one page request.
pub enum Reply<P> {
    Page(PageMeta, P),
    Failure(FetchError),
}

pub open spec fn opt_str_view(o: Option<String>) -> Option<Seq<char>> {
    match o {
        Some(s) => Some(s@),
        None => None,
    }
}

/// Sum of the item counts of the pages seen so far.
pub open spec fn total_items(metas: Seq<PageMeta>) -> int
    decreases metas.len(),
{
    if metas.len() == 0 {
        0
    } else {
        total_items(metas.drop_last()) + metas.last().dist
    }
}

/// The cursor that request `i` carries, given the pages received: none for the
/// first request, else the next cursor of the page before it.
pub open spec fn cursor_before(metas: Seq<PageMeta>, i: int) -> Option<Seq<char>> {
    if i == 0 {
        None
    } else {
        metas[i - 1].after
    }
}

/// Abstract state of one paginated fetch.
pub struct FetchView<P> {
    /// Listing endpoint that every request goes to.
    pub url: Seq<char>,
    /// Upper bound on the number of requests.
    pub max_pages: nat,
    pub phase: Phase,
    /// A request has been handed out and its answer is pending.
    pub awaiting: bool,
    /// Cursor for the next request.
    pub cursor: Option<Seq<char>>,
    /// Pages received, in fetch order.
    pub pages: Seq<P>,
    /// What was read of each received page.
    pub metas: Seq<PageMeta>,
    /// The `after` parameter of each request handed out, in order.
    pub sent: Seq<Option<Seq<char>>>,
}

impl<P> FetchView<P> {
    pub open spec fn start(url: Seq<char>, max_pages: nat) -> Self {
        FetchView {
            url,
            max_pages,
            phase: Phase::Fetching,
            awaiting: false,
            cursor: None,
            pages: Seq::empty(),
            metas: Seq::empty(),
            sent: Seq::empty(),
        }
    }

    pub open spec fn processed(self) -> int {
        total_items(self.metas)
    }

    pub open spec fn may_issue(self) -> bool {
        &&& self.phase == Phase::Fetching
        &&& !self.awaiting
        &&& self.sent.len() < self.max_pages
    }

    /// Asking for the next request: one is handed out when the fetch is still
    /// going, nothing is pending and the cap allows it; at the cap the fetch fails.
    pub open spec fn issued(self) -> Self {
        if self.phase == Phase::Fetching && !self.awaiting {
            if self.sent.len() < self.max_pages {
                FetchView { awaiting: true, sent: self.sent.push(self.cursor), ..self }
            } else {
                FetchView { phase: Phase::Failed(FetchError::PageLimitReached), ..self }
            }
        } else {
            self
        }
    }

    /// A page answers the pending request: it is kept, and its cursor either
    /// ends the fetch (absent) or becomes the next request's cursor.
    pub open spec fn received(self, m: PageMeta, p: P) -> Self {
        if self.phase == Phase::Fetching && self.awaiting {
            FetchView {
                awaiting: false,
                pages: self.pages.push(p),
                metas: self.metas.push(m),
                cursor: if m.after is Some {
                    m.after
                } else {
                    self.cursor
                },
                phase: if m.after is Some {
                    Phase::Fetching
                } else {
                    Phase::Done
                },
                ..self
            }
        } else {
            self
        }
    }

    /// The pending request failed: the whole fetch fails with it.
    pub open spec fn failed_with(self, e: FetchError) -> Self {
        if self.phase == Phase::Fetching && self.awaiting {
            FetchView { awaiting: false, phase: Phase::Failed(e), ..self }
        } else {
            self
        }
    }

    pub open spec fn cancelled(self) -> Self {
        if self.phase == Phase::Fetching {
            FetchView { awaiting: false, phase: Phase::Failed(FetchError::Cancelled), ..self }
        } else {
            self
        }
    }

    pub open spec fn answered(self, r: Reply<P>) -> Self {
        match r {
            Reply::Page(m, p) => self.received(m, p),
            Reply::Failure(e) => self.failed_with(e),
        }
    }

    pub open spec fn wf(self) -> bool {
        &&& self.pages.len() == self.metas.len()
        &&& self.sent.len() <= self.max_pages
        &&& self.metas.len() <= self.sent.len() <= self.metas.len() + 1
        &&& self.awaiting ==> self.phase == Phase::Fetching && self.sent.len() == self.metas.len() + 1
        &&& (self.phase == Phase::Fetching && !self.awaiting) ==> self.sent.len() == self.metas.len()
        &&& self.phase == Phase::Fetching ==> self.cursor == cursor_before(self.metas, self.metas.len() as int)
        &&& self.phase == Phase::Fetching ==> (self.metas.len() > 0 ==> self.metas.last().after is Some)
        &&& self.phase == Phase::Done ==> (self.metas.len() > 0 && self.metas.last().after is None)
        &&& forall|i: int| 0 <= i < self.metas.len() - 1 ==> (#[trigger] self.metas[i]).after is Some
        &&& forall|i: int| 0 <= i < self.sent.len() ==> #[trigger] self.sent[i] == cursor_before(self.metas, i)
    }
}

/// Drives a fetch against a script of server answers, the way a transport loop
/// does: ask for a request, answer it with the next reply, until no request comes.
pub open spec fn run<P>(s: FetchView<P>, replies: Seq<Reply<P>>) -> FetchView<P>
    decreases replies.len(),
{
    let t = s.issued();
    if t.awaiting && replies.len() > 0 {
        run(t.answered(replies[0]), replies.drop_first())
    } else {
        t
    }
}

proof fn lemma_total_push(metas: Seq<PageMeta>, m: PageMeta)
    ensures
        total_items(metas.push(m)) == total_items(metas) + m.dist,
{
    assert(metas.push(m).drop_last() =~= metas);
}

proof fn lemma_total_bound(metas: Seq<PageMeta>)
    ensures
        0 <= total_items(metas) <= metas.len() * (u64::MAX as int),
    decreases metas.len(),
{
    if metas.len() > 0 {
        lemma_total_bound(metas.drop_last());
    }
}

proof fn lemma_issued_wf<P>(s: FetchView<P>)
    requires
        s.wf(),
    ensures
        s.issued().wf(),
{
    let t = s.issued();
    assert forall|i: int| 0 <= i < t.sent.len() implies #[trigger] t.sent[i] == cursor_before(t.metas, i) by {
        if i < s.sent.len() {
            assert(s.sent[i] == cursor_before(s.metas, i));
        }
    }
}

proof fn lemma_answered_wf<P>(s: FetchView<P>, r: Reply<P>)
    requires
        s.wf(),
    ensures
        s.answered(r).wf(),
{
    let t = s.answered(r);
    if s.phase == Phase::Fetching && s.awaiting {
        if let Reply::Page(m, p) = r {
            assert forall|i: int| 0 <= i < t.metas.len() - 1 implies (#[trigger] t.metas[i]).after is Some by {
                if i < s.metas.len() - 1 {
                    assert(s.metas[i].after is Some);
                }
            }
            assert forall|i: int| 0 <= i < t.sent.len() implies #[trigger] t.sent[i] == cursor_before(t.metas, i) by {
                assert(s.sent[i] == cursor_before(s.metas, i));
            }
        }
    }
}

proof fn lemma_cancelled_wf<P>(s: FetchView<P>)
    requires
        s.wf(),
    ensures
        s.cancelled().wf(),
{
}

/// A whole fetch of the listing at `url` with page cap `max_pages`, driven by
/// `replies`.
pub open spec fn saved_run<P>(url: Seq<char>, max_pages: nat, replies: Seq<Reply<P>>) -> FetchView<P> {
    run(FetchView::start(url, max_pages), replies)
}

/// The pages that a script of replies carries, in order.
pub open spec fn page_items<P>(replies: Seq<Reply<P>>) -> Seq<P> {
    replies.map_values(|r: Reply<P>| r->Page_1)
}

/// What was read of each page that a script of replies carries, in order.
pub open spec fn page_metas<P>(replies: Seq<Reply<P>>) -> Seq<PageMeta> {
    replies.map_values(|r: Reply<P>| r->Page_0)
}

/// A script of replies made of pages that each hand out a next cursor, but the
/// last, which has none.
pub open spec fn ends_with_last_page<P>(replies: Seq<Reply<P>>) -> bool {
    &&& replies.len() >= 1
    &&& forall|i: int| 0 <= i < replies.len() ==> #[trigger] replies[i] is Page
    &&& forall|i: int| 0 <= i < replies.len() - 1 ==> (#[trigger] replies[i])->Page_0.after is Some
    &&& replies.last()->Page_0.after is None
}

proof fn lemma_run_to_last_page<P>(s: FetchView<P>, replies: Seq<Reply<P>>)
    requires
        s.phase == Phase::Fetching,
        !s.awaiting,
        s.sent.len() + replies.len() <= s.max_pages,
        ends_with_last_page(replies),
    ensures
        run(s, replies).phase == Phase::Done,
        run(s, replies).pages == s.pages + page_items(replies),
        run(s, replies).sent.len() == s.sent.len() + replies.len(),
        run(s, replies).issued() == run(s, replies),
    decreases replies.len(),
{
    let u = s.issued();
    let v = u.answered(replies[0]);
    let rest = replies.drop_first();
    assert(replies[0] is Page);
    if replies.len() == 1 {
        assert(v.pages == s.pages + page_items(replies));
    } else {
        assert(replies[0]->Page_0.after is Some);
        assert forall|i: int| 0 <= i < rest.len() implies #[trigger] rest[i] is Page by {
            assert(replies[i + 1] is Page);
        }
        assert forall|i: int| 0 <= i < rest.len() - 1 implies (#[trigger] rest[i])->Page_0.after is Some by {
            assert(replies[i + 1]->Page_0.after is Some);
        }
        lemma_run_to_last_page(v, rest);
        assert(s.pages + page_items(replies) =~= v.pages + page_items(rest));
    }
}

proof fn lemma_run_to_failure<P>(s: FetchView<P>, replies: Seq<Reply<P>>, i: int)
    requires
        s.phase == Phase::Fetching,
        !s.awaiting,
        0 <= i < replies.len(),
        s.sent.len() + i < s.max_pages,
        forall|j: int| 0 <= j < i ==> #[trigger] replies[j] is Page && replies[j]->Page_0.after is Some,
        replies[i] is Failure,
    ensures
        run(s, replies).phase == Phase::Failed(replies[i]->Failure_0),
        run(s, replies).sent.len() == s.sent.len() + i + 1,
        run(s, replies).issued() == run(s, replies),
    decreases i,
{
    let u = s.issued();
    let v = u.answered(replies[0]);
    let rest = replies.drop_first();
    if i > 0 {
        assert(replies[0] is Page && replies[0]->Page_0.after is Some);
        assert forall|j: int| 0 <= j < i - 1 implies #[trigger] rest[j] is Page && rest[j]->Page_0.after is Some by {
            assert(replies[j + 1] is Page && replies[j + 1]->Page_0.after is Some);
        }
        assert(rest[i - 1] == replies[i]);
        lemma_run_to_failure(v, rest, i - 1);
    }
}

proof fn lemma_run_record<P>(s: FetchView<P>, replies: Seq<Reply<P>>)
    requires
        s.wf(),
    ensures
        run(s, replies).wf(),
        s.metas.len() <= run(s, replies).metas.len() <= s.metas.len() + replies.len(),
        run(s, replies).metas.subrange(0, s.metas.len() as int) == s.metas,
        run(s, replies).pages.subrange(0, s.pages.len() as int) == s.pages,
        forall|j: int|
            s.metas.len() <= j < run(s, replies).metas.len() ==> replies[j - s.metas.len()] == Reply::Page(
                #[trigger] run(s, replies).metas[j],
                run(s, replies).pages[j],
            ),
    decreases replies.len(),
{
    let t = run(s, replies);
    let u = s.issued();
    lemma_issued_wf(s);
    if u.awaiting && replies.len() > 0 {
        let v = u.answered(replies[0]);
        let rest = replies.drop_first();
        lemma_answered_wf(u, replies[0]);
        lemma_run_record(v, rest);
        let n = s.metas.len() as int;
        assert(t.metas.subrange(0, n) =~= s.metas) by {
            assert(t.metas.subrange(0, v.metas.len() as int).subrange(0, n) =~= t.metas.subrange(0, n));
        }
        assert(t.pages.subrange(0, n) =~= s.pages) by {
            assert(t.pages.subrange(0, v.pages.len() as int).subrange(0, n) =~= t.pages.subrange(0, n));
        }
        assert forall|j: int| n <= j < t.metas.len() implies replies[j - n] == Reply::Page(
            #[trigger] t.metas[j],
            t.pages[j],
        ) by {
            if j == n {
                assert(v.metas.len() == n + 1);
                assert(t.metas.subrange(0, v.metas.len() as int)[j] == t.metas[j]);
                assert(t.pages.subrange(0, v.pages.len() as int)[j] == t.pages[j]);
                assert(replies[0] == Reply::Page(v.metas[n], v.pages[n]));
            } else {
                assert(rest[j - n - 1] == replies[j - n]);
            }
        }
    } else {
        assert(t.metas.subrange(0, s.metas.len() as int) =~= s.metas);
        assert(t.pages.subrange(0, s.pages.len() as int) =~= s.pages);
    }
}

/// A fetch that meets a run of pages whose last one carries no next cursor, with
/// the page cap not below their number, ends complete with exactly those pages in
/// fetch order, after one request per page, and asks for nothing more.
pub proof fn lemma_fetch_returns_every_page<P>(url: Seq<char>, max_pages: nat, replies: Seq<Reply<P>>)
    requires
        ends_with_last_page(replies),
        replies.len() <= max_pages,
    ensures
        saved_run(url, max_pages, replies).phase == Phase::Done,
        saved_run(url, max_pages, replies).pages == page_items(replies),
        saved_run(url, max_pages, replies).sent.len() == replies.len(),
        !saved_run(url, max_pages, replies).may_issue(),
{
    let s = FetchView::<P>::start(url, max_pages);
    lemma_run_to_last_page(s, replies);
    assert(s.pages + page_items(replies) =~= page_items(replies));
}

/// A single page with no items and no next cursor completes the fetch with
/// exactly that one page, after one request; it is no error.
pub proof fn lemma_single_empty_page<P>(url: Seq<char>, max_pages: nat, page: P)
    requires
        max_pages >= 1,
    ensures
        saved_run(url, max_pages, seq![Reply::Page(PageMeta { dist: 0, after: None }, page)]).phase
            == Phase::Done,
        saved_run(url, max_pages, seq![Reply::Page(PageMeta { dist: 0, after: None }, page)]).pages
            == seq![page],
        saved_run(url, max_pages, seq![Reply::Page(PageMeta { dist: 0, after: None }, page)]).sent.len()
            == 1,
        saved_run(url, max_pages, seq![Reply::Page(PageMeta { dist: 0, after: None }, page)]).processed()
            == 0,
{
    let replies = seq![Reply::Page(PageMeta { dist: 0, after: None }, page)];
    lemma_fetch_returns_every_page(url, max_pages, replies);
    lemma_count_accumulation(url, max_pages, replies);
    assert(page_items(replies) =~= seq![page]);
    lemma_run_record(FetchView::start(url, max_pages), replies);
    assert(replies.take(1) =~= replies);
    let metas = page_metas(replies);
    assert(metas.len() == 1);
    assert(metas.last() == PageMeta { dist: 0, after: None });
    assert(metas.drop_last() =~= Seq::<PageMeta>::empty());
    assert(total_items(metas.drop_last()) == 0);
    assert(total_items(metas) == 0);
}

/// The first request carries no cursor, and each later request carries exactly
/// the next cursor of the page that answered the request before it.
pub proof fn lemma_cursor_forwarding<P>(url: Seq<char>, max_pages: nat, replies: Seq<Reply<P>>)
    ensures
        saved_run(url, max_pages, replies).sent.len() > 0 ==> saved_run(url, max_pages, replies).sent[0] is None,
        forall|k: int|
            0 < k < saved_run(url, max_pages, replies).sent.len() ==> (replies[k - 1] matches Reply::Page(
                m,
                _,
            ) && #[trigger] saved_run(url, max_pages, replies).sent[k] == m.after),
{
    let s = FetchView::<P>::start(url, max_pages);
    let t = saved_run(url, max_pages, replies);
    lemma_run_record(s, replies);
    if t.sent.len() > 0 {
        assert(t.sent[0] == cursor_before(t.metas, 0));
    }
    assert forall|k: int| 0 < k < t.sent.len() implies (replies[k - 1] matches Reply::Page(m, _)
        && #[trigger] t.sent[k] == m.after) by {
        assert(t.sent[k] == cursor_before(t.metas, k));
        assert(replies[(k - 1) - 0] == Reply::Page(t.metas[k - 1], t.pages[k - 1]));
        assert(replies[k - 1] is Page);
    }
    assert forall|k: int| 0 < k < t.sent.len() implies #[trigger] replies[k - 1] is Page by {
        assert(t.sent[k] == t.sent[k]);
    }
}

/// After any number of pages, the count of processed items is the sum of the
/// item counts of exactly those pages, which are the first replies received.
pub proof fn lemma_count_accumulation<P>(url: Seq<char>, max_pages: nat, replies: Seq<Reply<P>>)
    ensures
        saved_run(url, max_pages, replies).processed() == total_items(
            page_metas(replies.take(saved_run(url, max_pages, replies).metas.len() as int)),
        ),
        saved_run(url, max_pages, replies).pages == page_items(
            replies.take(saved_run(url, max_pages, replies).pages.len() as int),
        ),
{
    let s = FetchView::<P>::start(url, max_pages);
    let t = run(s, replies);
    lemma_run_record(s, replies);
    let n = t.metas.len() as int;
    assert forall|j: int| 0 <= j < n implies replies[j] == Reply::Page(#[trigger] t.metas[j], t.pages[j]) by {
        assert(replies[j - 0] == Reply::Page(t.metas[j], t.pages[j]));
    }
    assert(t.metas =~= page_metas(replies.take(n)));
    assert(t.pages.len() == n);
    assert forall|j: int| 0 <= j < n implies #[trigger] t.pages[j] == page_items(replies.take(n))[j] by {
        assert(replies.take(n)[j] == replies[j]);
        assert(replies[j] == Reply::Page(t.metas[j], t.pages[j]));
    }
    assert(t.pages =~= page_items(replies.take(n)));
}

/// When request `i` fails and every page before it handed out a next cursor,
/// the fetch fails with that error after exactly `i + 1` requests and asks for
/// nothing more.
pub proof fn lemma_fail_fast<P>(url: Seq<char>, max_pages: nat, replies: Seq<Reply<P>>, i: int)
    requires
        0 <= i < replies.len(),
        i < max_pages,
        forall|j: int| 0 <= j < i ==> #[trigger] replies[j] is Page && replies[j]->Page_0.after is Some,
        replies[i] is Failure,
    ensures
        saved_run(url, max_pages, replies).phase == Phase::Failed(replies[i]->Failure_0),
        saved_run(url, max_pages, replies).sent.len() == i + 1,
        !saved_run(url, max_pages, replies).may_issue(),
{
    lemma_run_to_failure(FetchView::<P>::start(url, max_pages), replies, i);
}

/// Request for one page of the saved listing.
#[derive(Clone, Debug)]
pub struct PageRequest {
    /// Listing endpoint, without query parameters.
    pub url: String,
    /// Value of the `after` query parameter; the parameter is left out when absent.
    pub after: Option<String>,
    /// Value of the `limit` query parameter.
    pub limit: u64,
}

fn clone_cursor(c: &Option<String>) -> (r: Option<String>)
    ensures
        opt_str_view(r) == opt_str_view(*c),
{
    match c {
        Some(s) => Some(s.clone()),
        None => None,
    }
}

/// One paginated retrieval of every page of a cursor-paginated listing.
///
/// The fetch does no I/O of its own. Its driver asks it for the next request,
/// performs that request, and hands back either the decoded page or the failure.
/// Pages are kept whole (`P`), in fetch order; the item counts are summed as they
/// arrive. The first failure ends the fetch and no pages are returned. At most
/// `max_pages` requests are ever handed out, so a server that never stops
/// handing out cursors cannot keep the fetch going forever. Cancelling discards
/// the pages gathered so far.
pub struct SavedFetch<P> {
    url: String,
    max_pages: u64,
    phase: Phase,
    awaiting: bool,
    cursor: Option<String>,
    processed: u128,
    requests: u64,
    pages: Vec<P>,
    metas: Ghost<Seq<PageMeta>>,
    sent: Ghost<Seq<Option<Seq<char>>>>,
}

impl<P> View for SavedFetch<P> {
    type V = FetchView<P>;

    closed spec fn view(&self) -> FetchView<P> {
        FetchView {
            url: self.url@,
            max_pages: self.max_pages as nat,
            phase: self.phase,
            awaiting: self.awaiting,
            cursor: opt_str_view(self.cursor),
            pages: self.pages@,
            metas: self.metas@,
            sent: self.sent@,
        }
    }
}

impl<P> SavedFetch<P> {
    pub closed spec fn inv(&self) -> bool {
        &&& self@.wf()
        &&& self.processed == total_items(self.metas@)
        &&& self.requests == self.sent@.len()
    }

    /// A fetch of the listing at `url` that hands out at most `max_pages` requests.
    pub fn new(url: String, max_pages: u64) -> (r: Self)
        ensures
            r.inv(),
            r@ == FetchView::<P>::start(url@, max_pages as nat),
    {
        SavedFetch {
            url,
            max_pages,
            phase: Phase::Fetching,
            awaiting: false,
            cursor: None,
            processed: 0,
            requests: 0,
            pages: Vec::new(),
            metas: Ghost(Seq::empty()),
            sent: Ghost(Seq::empty()),
        }
    }

    /// The next request to perform, or `None` when the fetch is over or an answer
    /// is pending. Asking past the page cap fails the fetch.
    pub fn next_request(&mut self) -> (r: Option<PageRequest>)
        requires
            old(self).inv(),
        ensures
            final(self).inv(),
            final(self)@ == old(self)@.issued(),
            r is Some <==> old(self)@.may_issue(),
            r matches Some(q) ==> {
                &&& q.url@ == old(self)@.url
                &&& opt_str_view(q.after) == old(self)@.cursor
                &&& q.limit == SAVED_PAGE_LIMIT
            },
    {
        proof {
            lemma_issued_wf(self@);
        }
        if self.phase == Phase::Fetching && !self.awaiting {
            if self.requests < self.max_pages {
                let after = clone_cursor(&self.cursor);
                self.sent = Ghost(self.sent@.push(opt_str_view(self.cursor)));
                self.requests = self.requests + 1;
                self.awaiting = true;
                Some(PageRequest { url: self.url.clone(), after, limit: SAVED_PAGE_LIMIT })
            } else {
                self.phase = Phase::Failed(FetchError::PageLimitReached);
                None
            }
        } else {
            None
        }
    }

    /// Hands in the decoded answer to the pending request: its item count, its
    /// next cursor and the page itself. Ignored when no request is pending.
    pub fn on_page(&mut self, dist: u64, after: Option<String>, page: P)
        requires
            old(self).inv(),
        ensures
            final(self).inv(),
            final(self)@ == old(self)@.received(PageMeta { dist, after: opt_str_view(after) }, page),
    {
        let ghost m = PageMeta { dist, after: opt_str_view(after) };
        proof {
            lemma_answered_wf(self@, Reply::Page(m, page));
        }
        if self.phase == Phase::Fetching && self.awaiting {
            proof {
                lemma_total_push(self.metas@, m);
                lemma_total_bound(self.metas@);
                let n = self.metas@.len() as int;
                let k = u64::MAX as int;
                assert(n + 1 <= k);
                assert((n + 1) * k <= k * k) by (nonlinear_arith)
                    requires
                        n + 1 <= k,
                        0 <= k,
                ;
                assert(n * k + k == (n + 1) * k) by (nonlinear_arith);
            }
            self.processed = self.processed + dist as u128;
            self.pages.push(page);
            self.metas = Ghost(self.metas@.push(m));
            self.awaiting = false;
            match after {
                Some(a) => {
                    self.cursor = Some(a);
                },
                None => {
                    self.phase = Phase::Done;
                },
            }
        }
    }

    /// Hands in the failure of the pending request; the fetch fails with it.
    /// Ignored when no request is pending.
    pub fn on_failure(&mut self, err: FetchError)
        requires
            old(self).inv(),
        ensures
            final(self).inv(),
            final(self)@ == old(self)@.failed_with(err),
    {
        proof {
            lemma_answered_wf(self@, Reply::Failure(err));
        }
        if self.phase == Phase::Fetching && self.awaiting {
            self.awaiting = false;
            self.phase = Phase::Failed(err);
        }
    }

    /// Stops a fetch that is still going; what was gathered is discarded.
    pub fn cancel(&mut self)
        requires
            old(self).inv(),
        ensures
            final(self).inv(),
            final(self)@ == old(self)@.cancelled(),
    {
        proof {
            lemma_cancelled_wf(self@);
        }
        if self.phase == Phase::Fetching {
            self.awaiting = false;
            self.phase = Phase::Failed(FetchError::Cancelled);
        }
    }

    pub fn phase(&self) -> (r: Phase)
        ensures
            r == self@.phase,
    {
        self.phase
    }

    /// Sum of the item counts of every page received so far.
    pub fn processed_count(&self) -> (r: u128)
        requires
            self.inv(),
        ensures
            r == self@.processed(),
    {
        self.processed
    }

    /// Number of requests handed out so far.
    pub fn requests_issued(&self) -> (r: u64)
        requires
            self.inv(),
        ensures
            r == self@.sent.len(),
    {
        self.requests
    }

    /// Number of pages received so far.
    pub fn pages_received(&self) -> (r: usize)
        ensures
            r == self@.pages.len(),
    {
        self.pages.len()
    }

    /// The cursor that the next request will carry.
    pub fn cursor(&self) -> (r: Option<&String>)
        ensures
            r matches Some(c) ==> self@.cursor == Some(c@),
            r is None ==> self@.cursor is None,
    {
        self.cursor.as_ref()
    }

    /// The outcome: every page in fetch order when the last page came, else the
    /// failure. A fetch left unfinished counts as cancelled.
    pub fn finish(self) -> (r: Result<Vec<P>, FetchError>)
        requires
            self.inv(),
        ensures
            self@.phase == Phase::Done ==> (r matches Ok(v) && v@ == self@.pages),
            self@.phase matches Phase::Failed(e) ==> r == Err::<Vec<P>, FetchError>(e),
            self@.phase == Phase::Fetching ==> r == Err::<Vec<P>, FetchError>(FetchError::Cancelled),
    {
        match self.phase {
            Phase::Done => Ok(self.pages),
            Phase::Failed(e) => Err(e),
            Phase::Fetching => Err(FetchError::Cancelled),
        }
    }
}

} // verus!
