//! What a conversation with a language server keeps between messages, and the decisions it
//! takes on each: which id a request goes under, which documents the server has open, which
//! of the server's works are running, what a server's request is answered, which response
//! answers a request, and whether a references answer can be taken.
//!
//! The reading and writing of frames is its caller's; each decision here takes what was
//! read and gives what to do.
use vstd::prelude::*;

use crate::lsp::message::{RequestId, ResponseFailure, ResponseOutcome};
use crate::text::{chars_of, spells, string_of};

verus! {

/// How many times the references at a name are asked before giving up on the server
/// settling: the first answer may come while the server is loading, the second after it;
/// work touching a third means the asking itself starts work.
pub const REFERENCES_ATTEMPTS: usize = 3;

/// The method of a progress notification.
pub open spec fn progress_method() -> Seq<char> {
    "$/progress"@
}

/// The method of the server's request to create a progress token.
pub open spec fn create_progress_method() -> Seq<char> {
    "window/workDoneProgress/create"@
}

/// A token that names one work of the server: a number or a string.
#[derive(Debug)]
pub enum ProgressToken {
    Number(i32),
    Text(String),
}

/// A token as a value.
pub enum TokenView {
    Number(i32),
    Text(Seq<char>),
}

impl ProgressToken {
    pub open spec fn view(&self) -> TokenView {
        match self {
            ProgressToken::Number(n) => TokenView::Number(*n),
            ProgressToken::Text(t) => TokenView::Text(t@),
        }
    }

    /// Whether two tokens name the same work.
    pub fn same_as(&self, other: &ProgressToken) -> (same: bool)
        ensures
            same == (self@ == other@),
    {
        match (self, other) {
            (ProgressToken::Number(a), ProgressToken::Number(b)) => *a == *b,
            (ProgressToken::Text(a), ProgressToken::Text(b)) => spells(
                chars_of(a.as_str()).as_slice(),
                b.as_str(),
            ),
            _ => false,
        }
    }

    /// A copy of the token.
    pub fn duplicate(&self) -> (copy: ProgressToken)
        ensures
            copy@ == self@,
    {
        match self {
            ProgressToken::Number(n) => ProgressToken::Number(*n),
            ProgressToken::Text(t) => ProgressToken::Text(t.clone()),
        }
    }
}

/// What a progress notification says of a work: it began, it reports, or it ended.
#[derive(Debug)]
pub enum ProgressEvent {
    Begin(ProgressToken),
    Report(ProgressToken),
    End(ProgressToken),
}

/// A progress notification as a value.
pub enum EventView {
    Begin(TokenView),
    Report(TokenView),
    End(TokenView),
}

impl ProgressEvent {
    pub open spec fn view(&self) -> EventView {
        match self {
            ProgressEvent::Begin(t) => EventView::Begin(t@),
            ProgressEvent::Report(t) => EventView::Report(t@),
            ProgressEvent::End(t) => EventView::End(t@),
        }
    }
}

/// What a request from the server is answered.
#[derive(Debug, Clone, Copy, PartialEq, Eq)]
pub enum ServerReply {
    /// A `null` result: the request to create a progress token is accepted.
    NullResult,
    /// Method not found: this client supports no other request, and says so rather than
    /// leave the server waiting.
    MethodNotFound,
}

/// The answer to a request from the server: a progress token may be created; any other
/// request is refused as not found.
pub fn reply_to(method: &str) -> (reply: ServerReply)
    ensures
        method@ == create_progress_method() ==> reply == ServerReply::NullResult,
        method@ != create_progress_method() ==> reply == ServerReply::MethodNotFound,
{
    if spells(chars_of(method).as_slice(), "window/workDoneProgress/create") {
        ServerReply::NullResult
    } else {
        ServerReply::MethodNotFound
    }
}

/// Whether a notification reports progress; the others are read past.
pub fn is_progress(method: &str) -> (progress: bool)
    ensures
        progress == (method@ == progress_method()),
{
    spells(chars_of(method).as_slice(), "$/progress")
}

/// Why a response does not give the result of the request it was read for.
#[derive(Debug, Clone, PartialEq, Eq)]
pub enum ResponseRejection {
    /// It answers another request.
    UnexpectedResponse { expected: RequestId, received: RequestId },
    /// The server failed the request.
    ServerFailure(ResponseFailure),
}

/// The result a response gives to the request under `expected`: its result when it
/// answers that request and succeeded.
///
/// # Errors
///
/// It answers another request; or the server failed the request.
pub fn result_of<P>(expected: RequestId, received: RequestId, outcome: ResponseOutcome<P>) -> (result:
    Result<P, ResponseRejection>)
    ensures
        received@ != expected@ ==> result == Err::<P, ResponseRejection>(
            ResponseRejection::UnexpectedResponse { expected, received },
        ),
        received@ == expected@ ==> match outcome {
            ResponseOutcome::Success(r) => result == Ok::<P, ResponseRejection>(r),
            ResponseOutcome::Failure(f) => result == Err::<P, ResponseRejection>(
                ResponseRejection::ServerFailure(f),
            ),
        },
{
    if received.number() != expected.number() {
        return Err(ResponseRejection::UnexpectedResponse { expected, received });
    }
    match outcome {
        ResponseOutcome::Success(r) => Ok(r),
        ResponseOutcome::Failure(f) => Err(ResponseRejection::ServerFailure(f)),
    }
}

/// What to do after an answer to the references at a name.
#[derive(Debug, Clone, Copy, PartialEq, Eq)]
pub enum AttemptStep {
    /// Take the answer: no work of the server touched it.
    Take,
    /// Ask again, with this many asks left.
    AskAgain { attempts_left: usize },
    /// Give up: the server kept working through every ask.
    GiveUp,
}

/// The step after an answer, with `attempts_left` asks left counting the one just made:
/// an answer no work touched is taken; otherwise the references are asked again while
/// asks are left.
pub fn step_after_answer(attempts_left: usize, untouched: bool) -> (step: AttemptStep)
    requires
        attempts_left >= 1,
    ensures
        untouched ==> step == AttemptStep::Take,
        !untouched && attempts_left > 1 ==> step == (AttemptStep::AskAgain {
            attempts_left: (attempts_left - 1) as usize,
        }),
        !untouched && attempts_left == 1 ==> step == AttemptStep::GiveUp,
{
    if untouched {
        AttemptStep::Take
    } else if attempts_left > 1 {
        AttemptStep::AskAgain { attempts_left: attempts_left - 1 }
    } else {
        AttemptStep::GiveUp
    }
}

/// A sequence with every element equal to `x` left out.
pub open spec fn without<T>(s: Seq<T>, x: T) -> Seq<T>
    decreases s.len(),
{
    if s.len() == 0 {
        s
    } else {
        let rest = without(s.drop_last(), x);
        if s.last() == x {
            rest
        } else {
            rest.push(s.last())
        }
    }
}

/// The state of a conversation as a value.
pub struct ConnectionView {
    /// The number the next request goes under.
    pub next_id: nat,
    /// The URIs of the documents the server has open, each once.
    pub open_documents: Seq<Seq<char>>,
    /// The works that began and have not ended.
    pub running: Seq<TokenView>,
    /// How many times the server made known a work: a token created, or a work begun.
    pub noticed: nat,
}

/// One more, stopping at the largest count.
pub open spec fn counted_once_more(n: nat) -> nat {
    if n >= usize::MAX {
        n
    } else {
        n + 1
    }
}

/// After a request was given the next id.
pub open spec fn id_taken(v: ConnectionView) -> ConnectionView {
    ConnectionView {
        next_id: if v.next_id == u64::MAX {
            v.next_id
        } else {
            v.next_id + 1
        },
        ..v
    }
}

/// After a document was opened: listed, if it was not.
pub open spec fn opened(v: ConnectionView, uri: Seq<char>) -> ConnectionView {
    if v.open_documents.contains(uri) {
        v
    } else {
        ConnectionView { open_documents: v.open_documents.push(uri), ..v }
    }
}

/// After a document was closed: no longer listed.
pub open spec fn closed(v: ConnectionView, uri: Seq<char>) -> ConnectionView {
    ConnectionView { open_documents: without(v.open_documents, uri), ..v }
}

/// After the server's request to create a progress token was accepted.
pub open spec fn creation_noted(v: ConnectionView) -> ConnectionView {
    ConnectionView { noticed: counted_once_more(v.noticed), ..v }
}

/// After a progress notification: a work that begins is running and counted; a work that
/// ends is no longer running; a report changes nothing.
pub open spec fn progress_noted(v: ConnectionView, event: EventView) -> ConnectionView {
    match event {
        EventView::Begin(t) => ConnectionView {
            noticed: counted_once_more(v.noticed),
            running: v.running.push(t),
            ..v
        },
        EventView::Report(_) => v,
        EventView::End(t) => ConnectionView { running: without(v.running, t), ..v },
    }
}

/// Whether an answer asked when `noticed_before` works were known was touched by no work:
/// none was made known while it was asked, and none is running.
pub open spec fn untouched(v: ConnectionView, noticed_before: nat) -> bool {
    v.noticed == noticed_before && v.running.len() == 0
}

/// Whether a list holds nothing twice.
pub open spec fn distinct<T>(s: Seq<T>) -> bool {
    forall|i: int, j: int| 0 <= i < j < s.len() ==> s[i] != s[j]
}

/// The state a conversation keeps between messages.
#[derive(Debug)]
pub struct ConnectionState {
    next_id: RequestId,
    open_documents: Vec<String>,
    running_progress: Vec<ProgressToken>,
    noticed_progress_count: usize,
}

/// The values of a list of tokens.
pub open spec fn tokens_view(tokens: Seq<ProgressToken>) -> Seq<TokenView> {
    tokens.map_values(|t: ProgressToken| t@)
}

impl ConnectionState {
    pub closed spec fn view(&self) -> ConnectionView {
        ConnectionView {
            next_id: self.next_id@,
            open_documents: self.open_documents@.map_values(|u: String| u@),
            running: tokens_view(self.running_progress@),
            noticed: self.noticed_progress_count as nat,
        }
    }

    /// Each open document is listed once.
    #[verifier::type_invariant]
    closed spec fn documents_listed_once(self) -> bool {
        distinct(self@.open_documents)
    }

    /// A conversation that has not started: the first request goes under id 1, nothing is
    /// open, running or known.
    pub fn new() -> (state: ConnectionState)
        ensures
            state@.next_id == 1,
            state@.open_documents == Seq::<Seq<char>>::empty(),
            state@.running == Seq::<TokenView>::empty(),
            state@.noticed == 0,
    {
        let state = ConnectionState {
            next_id: RequestId::first(),
            open_documents: Vec::new(),
            running_progress: Vec::new(),
            noticed_progress_count: 0,
        };
        assert(state@.open_documents =~= Seq::<Seq<char>>::empty());
        assert(state@.running =~= Seq::<TokenView>::empty());
        state
    }

    /// The id for the next request; the one after it is kept for the request after.
    pub fn take_request_id(&mut self) -> (id: RequestId)
        ensures
            id@ == old(self)@.next_id,
            final(self)@ == id_taken(old(self)@),
    {
        proof {
            use_type_invariant(&*self);
        }
        let id = self.next_id;
        self.next_id = id.next();
        id
    }

    /// Whether the server has the document open.
    pub fn is_open(&self, uri: &str) -> (open: bool)
        ensures
            open == self@.open_documents.contains(uri@),
    {
        let mut i: usize = 0;
        while i < self.open_documents.len()
            invariant
                0 <= i <= self.open_documents@.len(),
                forall|j: int| 0 <= j < i ==> self.open_documents@[j]@ != uri@,
            decreases self.open_documents@.len() - i,
        {
            if spells(chars_of(self.open_documents[i].as_str()).as_slice(), uri) {
                assert(self@.open_documents[i as int] == uri@);
                return true;
            }
            i = i + 1;
        }
        proof {
            if self@.open_documents.contains(uri@) {
                let k = choose|k: int|
                    0 <= k < self@.open_documents.len() && self@.open_documents[k] == uri@;
                assert(self.open_documents@[k]@ == uri@);
            }
        }
        false
    }

    /// Notes that the server was given a document to open.
    pub fn note_opened(&mut self, uri: &str)
        ensures
            final(self)@ == opened(old(self)@, uri@),
    {
        if self.is_open(uri) {
            return;
        }
        proof {
            use_type_invariant(&*self);
        }
        let ghost before = self@;
        let mut documents: Vec<String> = Vec::new();
        std::mem::swap(&mut documents, &mut self.open_documents);
        documents.push(string_of(&chars_of(uri)));
        assert(documents@.map_values(|u: String| u@) =~= before.open_documents.push(uri@));
        self.open_documents = documents;
    }

    /// Notes that the server was told to close a document.
    pub fn note_closed(&mut self, uri: &str)
        ensures
            final(self)@ == closed(old(self)@, uri@),
    {
        proof {
            use_type_invariant(&*self);
        }
        let ghost before = self@;
        let mut kept: Vec<String> = Vec::new();
        let mut i: usize = 0;
        while i < self.open_documents.len()
            invariant
                0 <= i <= self.open_documents@.len(),
                self@ == before,
                kept@.map_values(|u: String| u@) == without(before.open_documents.take(i as int), uri@),
            decreases self.open_documents@.len() - i,
        {
            let ghost prior = kept@;
            assert(before.open_documents.take(i + 1).drop_last() =~= before.open_documents.take(
                i as int,
            ));
            if !spells(chars_of(self.open_documents[i].as_str()).as_slice(), uri) {
                kept.push(self.open_documents[i].clone());
                assert(kept@.map_values(|u: String| u@) =~= prior.map_values(|u: String| u@).push(
                    self.open_documents@[i as int]@,
                ));
            }
            i = i + 1;
        }
        assert(before.open_documents.take(i as int) =~= before.open_documents);
        proof {
            lemma_without_keeps_distinct(before.open_documents, uri@);
        }
        self.open_documents = kept;
    }

    /// Notes that the server's request to create a progress token was accepted: the server
    /// made known that a work may start.
    pub fn note_progress_created(&mut self)
        ensures
            final(self)@ == creation_noted(old(self)@),
    {
        proof {
            use_type_invariant(&*self);
        }
        self.noticed_progress_count = self.noticed_progress_count.saturating_add(1);
    }

    /// Notes a progress notification.
    pub fn note_progress(&mut self, event: ProgressEvent)
        ensures
            final(self)@ == progress_noted(old(self)@, event@),
    {
        proof {
            use_type_invariant(&*self);
        }
        let ghost before = self@;
        match event {
            ProgressEvent::Begin(token) => {
                self.noticed_progress_count = self.noticed_progress_count.saturating_add(1);
                let ghost t = token@;
                let mut running: Vec<ProgressToken> = Vec::new();
                std::mem::swap(&mut running, &mut self.running_progress);
                running.push(token);
                self.running_progress = running;
                assert(self@.running =~= before.running.push(t));
            },
            ProgressEvent::Report(_) => {},
            ProgressEvent::End(token) => {
                let mut kept: Vec<ProgressToken> = Vec::new();
                let mut i: usize = 0;
                while i < self.running_progress.len()
                    invariant
                        0 <= i <= self.running_progress@.len(),
                        self@ == before,
                        tokens_view(kept@) == without(before.running.take(i as int), token@),
                    decreases self.running_progress@.len() - i,
                {
                    let ghost prior = kept@;
                    assert(before.running.take(i + 1).drop_last() =~= before.running.take(i as int));
                    assert(before.running[i as int] == self.running_progress@[i as int]@);
                    if !self.running_progress[i].same_as(&token) {
                        kept.push(self.running_progress[i].duplicate());
                        assert(tokens_view(kept@) =~= tokens_view(prior).push(
                            self.running_progress@[i as int]@,
                        ));
                    }
                    i = i + 1;
                }
                assert(before.running.take(i as int) =~= before.running);
                self.running_progress = kept;
            },
        }
    }

    /// Whether a work of the server is running.
    pub fn is_working(&self) -> (working: bool)
        ensures
            working == (self@.running.len() > 0),
    {
        self.running_progress.len() > 0
    }

    /// How many times the server has made known a work so far.
    pub fn noticed_progress_count(&self) -> (count: usize)
        ensures
            count == self@.noticed,
    {
        self.noticed_progress_count
    }

    /// Whether an answer asked when `noticed_before` works were known can be taken: no
    /// work was made known while it was asked, and none is running.
    pub fn answer_untouched(&self, noticed_before: usize) -> (untouched_by_work: bool)
        ensures
            untouched_by_work == untouched(self@, noticed_before as nat),
    {
        self.noticed_progress_count == noticed_before && self.running_progress.len() == 0
    }
}

/// What is left out of a list is in it nowhere after.
pub proof fn lemma_without_leaves_none<T>(s: Seq<T>, x: T)
    ensures
        !without(s, x).contains(x),
        forall|y: T| #[trigger] without(s, x).contains(y) ==> s.contains(y),
    decreases s.len(),
{
    if s.len() > 0 {
        lemma_without_leaves_none(s.drop_last(), x);
        assert forall|y: T| #[trigger] without(s, x).contains(y) implies s.contains(y) by {
            if without(s.drop_last(), x).contains(y) {
                let k = choose|k: int|
                    0 <= k < s.drop_last().len() && s.drop_last()[k] == y;
                assert(s[k] == y);
            } else {
                assert(s[s.len() - 1] == y);
            }
        }
    }
}

/// Leaving elements out keeps a list free of repeats.
pub proof fn lemma_without_keeps_distinct<T>(s: Seq<T>, x: T)
    requires
        distinct(s),
    ensures
        distinct(without(s, x)),
    decreases s.len(),
{
    if s.len() > 0 {
        let rest = s.drop_last();
        assert(distinct(rest));
        lemma_without_keeps_distinct(rest, x);
        lemma_without_leaves_none(rest, x);
        if s.last() != x {
            assert(!rest.contains(s.last())) by {
                if rest.contains(s.last()) {
                    let k = choose|k: int| 0 <= k < rest.len() && rest[k] == s.last();
                    assert(s[k] == s[s.len() - 1]);
                }
            }
            let w = without(rest, x);
            assert(!w.contains(s.last()));
            assert forall|i: int, j: int| 0 <= i < j < w.push(s.last()).len() implies w.push(
                s.last(),
            )[i] != w.push(s.last())[j] by {
                if j == w.len() {
                    assert(w.contains(w[i]));
                }
            }
        }
    }
}

/// A work that begins and then ends is no longer running, and the works that were
/// running before, other than it, still are.
pub proof fn lemma_end_undoes_begin(v: ConnectionView, t: TokenView)
    ensures
        progress_noted(progress_noted(v, EventView::Begin(t)), EventView::End(t)).running
            == without(v.running, t),
        !progress_noted(progress_noted(v, EventView::Begin(t)), EventView::End(t)).running.contains(
            t,
        ),
{
    assert(v.running.push(t).drop_last() =~= v.running);
    lemma_without_leaves_none(v.running, t);
}

/// The count of works made known never falls, whatever the server notifies or requests.
pub proof fn lemma_noticed_never_falls(v: ConnectionView, event: EventView)
    ensures
        progress_noted(v, event).noticed >= v.noticed,
        creation_noted(v).noticed >= v.noticed,
{
}

/// Opening a document twice is opening it once.
pub proof fn lemma_opening_twice_is_opening_once(v: ConnectionView, uri: Seq<char>)
    ensures
        opened(opened(v, uri), uri) == opened(v, uri),
{
    if !v.open_documents.contains(uri) {
        assert(v.open_documents.push(uri)[v.open_documents.len() as int] == uri);
    }
}

/// A document opened and then closed is not open, and the others open before still are.
pub proof fn lemma_close_undoes_open(v: ConnectionView, uri: Seq<char>)
    ensures
        !closed(opened(v, uri), uri).open_documents.contains(uri),
        closed(opened(v, uri), uri).open_documents == without(v.open_documents, uri),
{
    if !v.open_documents.contains(uri) {
        assert(v.open_documents.push(uri).drop_last() =~= v.open_documents);
    }
    lemma_without_leaves_none(opened(v, uri).open_documents, uri);
    if v.open_documents.contains(uri) {
    }
}

/// Two requests in a row go under different ids, while ids are left.
pub proof fn lemma_requests_go_under_different_ids(v: ConnectionView)
    requires
        v.next_id != u64::MAX,
    ensures
        id_taken(v).next_id != v.next_id,
{
}

} // verus!
