//! The reading half of the main socket: which requests of a client are passed on
//! to the page that it has open.

use vstd::prelude::*;

use crate::config::Config;
use crate::message::{Message, RequestTypes};
use crate::token::{validate_token, TokenState};
#[allow(unused_imports)]
use crate::message::{message_of, request_of, MessageModel, RequestModel};
#[allow(unused_imports)]
use crate::token::{admitted, possible_state, state_at, text_of, vouches};

verus! {

/// The page that a client is sent to when it has to log in.
pub const LOGIN_PAGE: &'static str = "/login";

/// An item for the queue that leads to the pages.
#[derive(Debug, PartialEq, Eq)]
pub struct Delivery<C> {
    /// A request, or nothing to make the open page quit.
    pub item: Option<RequestTypes<C>>,
    /// Whether the socket is given up when the queue does not take the item.
    pub required: bool,
}

/// The model of a [`Delivery`].
pub struct DeliveryModel<C> {
    pub item: Option<RequestModel<C>>,
    pub required: bool,
}

impl<C> View for Delivery<C> {
    type V = DeliveryModel<C>;

    open spec fn view(&self) -> DeliveryModel<C> {
        DeliveryModel { item: request_of(self.item), required: self.required }
    }
}

/// What the reader waits for.
#[derive(Debug, Clone, Copy, PartialEq, Eq, Structural)]
pub enum ReaderPhase {
    /// The next frame.
    Reading,
    /// The request that a text frame holds.
    Parsing,
    /// The queue, which was handed an item, required or not.
    Sending(bool),
    /// Nothing any more.
    Stopped,
}

/// What happens to a reader.
#[derive(Debug, PartialEq, Eq)]
pub enum ReaderEvent<C> {
    /// A frame came in; nothing, if the socket ended or failed.
    Incoming(Option<Message>),
    /// A text was parsed; nothing, if it is not a request.
    Parsed(Option<RequestTypes<C>>),
    /// The queue took an item, or did not.
    Sent(bool),
}

/// The model of a [`ReaderEvent`].
pub enum ReaderEventModel<C> {
    Incoming(Option<MessageModel>),
    Parsed(Option<RequestModel<C>>),
    Sent(bool),
}

impl<C> View for ReaderEvent<C> {
    type V = ReaderEventModel<C>;

    open spec fn view(&self) -> ReaderEventModel<C> {
        match self {
            ReaderEvent::Incoming(message) => ReaderEventModel::Incoming(message_of(*message)),
            ReaderEvent::Parsed(request) => ReaderEventModel::Parsed(request_of(*request)),
            ReaderEvent::Sent(taken) => ReaderEventModel::Sent(*taken),
        }
    }
}

/// What a reader wants done next.
#[derive(Debug, PartialEq, Eq)]
pub enum ReaderAction<C> {
    /// Wait for a frame.
    Read,
    /// Parse a text as a request.
    Parse(String),
    /// Put an item into the queue.
    Send(Option<RequestTypes<C>>),
    /// Give up the socket.
    Stop,
}

/// The model of a [`ReaderAction`].
pub enum ReaderActionModel<C> {
    Read,
    Parse(Seq<char>),
    Send(Option<RequestModel<C>>),
    Stop,
}

impl<C> View for ReaderAction<C> {
    type V = ReaderActionModel<C>;

    open spec fn view(&self) -> ReaderActionModel<C> {
        match self {
            ReaderAction::Read => ReaderActionModel::Read,
            ReaderAction::Parse(text) => ReaderActionModel::Parse(text@),
            ReaderAction::Send(item) => ReaderActionModel::Send(request_of(*item)),
            ReaderAction::Stop => ReaderActionModel::Stop,
        }
    }
}

/// The reading half of a client's main socket.
#[derive(Debug, PartialEq, Eq)]
pub struct Reader<C> {
    first_message: bool,
    token: String,
    phase: ReaderPhase,
    queue: Vec<Delivery<C>>,
    last: bool,
}

/// The model of a [`Reader`].
pub struct ReaderModel<C> {
    /// Whether no page was opened yet, so that none has to quit.
    pub first_message: bool,
    /// The token that the client sent last.
    pub token: Seq<char>,
    pub phase: ReaderPhase,
    /// What is still to be put into the queue for the current request.
    pub queue: Seq<DeliveryModel<C>>,
    /// Whether the socket is given up after that.
    pub last: bool,
}

impl<C> View for Reader<C> {
    type V = ReaderModel<C>;

    closed spec fn view(&self) -> ReaderModel<C> {
        ReaderModel {
            first_message: self.first_message,
            token: self.token@,
            phase: self.phase,
            queue: self.queue@.map_values(|delivery: Delivery<C>| delivery@),
            last: self.last,
        }
    }
}

/// A reader before its first frame.
pub open spec fn reader_init<C>() -> ReaderModel<C> {
    ReaderModel {
        first_message: true,
        token: Seq::empty(),
        phase: ReaderPhase::Reading,
        queue: Seq::empty(),
        last: false,
    }
}

/// A reader that has given up.
pub open spec fn reader_stopped<C>(s: ReaderModel<C>) -> ReaderModel<C> {
    ReaderModel { phase: ReaderPhase::Stopped, queue: Seq::empty(), ..s }
}

/// Makes the open page quit.
pub open spec fn quit<C>() -> DeliveryModel<C> {
    DeliveryModel { item: None, required: true }
}

/// Sends the client to the login page.
pub open spec fn login<C>() -> DeliveryModel<C> {
    DeliveryModel { item: Some(RequestModel::Page(LOGIN_PAGE@)), required: false }
}

/// Whether a request is a new token for the reader itself.
pub open spec fn is_login_attempt<C>(pass: bool, request: RequestModel<C>) -> bool {
    pass && request is Token
}

/// What a request puts into the queue, in order, given what the client's token
/// says: nothing for a new token; the way to the login page for a client that is
/// not logged in; else the request itself. A change of page makes the open page
/// quit first, if there is one.
pub open spec fn deliveries<C>(
    pass: bool,
    first_message: bool,
    request: RequestModel<C>,
    state: TokenState,
) -> Seq<DeliveryModel<C>> {
    if is_login_attempt(pass, request) {
        seq![]
    } else if pass && !(state is ValidToken) {
        if first_message {
            seq![login()]
        } else {
            seq![quit(), login()]
        }
    } else {
        let forward = DeliveryModel { item: Some(request), required: true };
        if request is Page && !first_message {
            seq![quit(), forward]
        } else {
            seq![forward]
        }
    }
}

/// What a request makes of the reader, before anything is put into the queue.
pub open spec fn reader_with<C>(
    s: ReaderModel<C>,
    pass: bool,
    request: RequestModel<C>,
    state: TokenState,
) -> ReaderModel<C> {
    let refused = !is_login_attempt(pass, request) && pass && !(state is ValidToken);
    ReaderModel {
        first_message: s.first_message && !(request is Page && !refused),
        token: if is_login_attempt(pass, request) {
            request->Token_0
        } else {
            s.token
        },
        phase: s.phase,
        queue: deliveries(pass, s.first_message, request, state),
        last: refused && state is NoFingerprint,
    }
}

/// Goes on with what is left of the current request, and with the next one after
/// that.
pub open spec fn reader_advance<C>(s: ReaderModel<C>) -> (ReaderModel<C>, ReaderActionModel<C>) {
    if s.queue.len() > 0 {
        (
            ReaderModel {
                phase: ReaderPhase::Sending(s.queue[0].required),
                queue: s.queue.drop_first(),
                ..s
            },
            ReaderActionModel::Send(s.queue[0].item),
        )
    } else if s.last {
        (reader_stopped(s), ReaderActionModel::Stop)
    } else {
        (ReaderModel { phase: ReaderPhase::Reading, ..s }, ReaderActionModel::Read)
    }
}

/// One step of a reader. `state` is what the client's token says at that time;
/// only a request that is no login attempt depends on it. An event that the reader
/// does not wait for ends it.
pub open spec fn reader_step<C>(
    s: ReaderModel<C>,
    pass: bool,
    event: ReaderEventModel<C>,
    state: TokenState,
) -> (ReaderModel<C>, ReaderActionModel<C>) {
    match (s.phase, event) {
        (ReaderPhase::Reading, ReaderEventModel::Incoming(Some(message))) => match message {
            MessageModel::Close => (reader_stopped(s), ReaderActionModel::Stop),
            MessageModel::Text(text) => (
                ReaderModel { phase: ReaderPhase::Parsing, ..s },
                ReaderActionModel::Parse(text),
            ),
            _ => (s, ReaderActionModel::Read),
        },
        (ReaderPhase::Parsing, ReaderEventModel::Parsed(None)) => (
            ReaderModel { phase: ReaderPhase::Reading, ..s },
            ReaderActionModel::Read,
        ),
        (ReaderPhase::Parsing, ReaderEventModel::Parsed(Some(request))) => reader_advance(
            reader_with(s, pass, request, state),
        ),
        (ReaderPhase::Sending(required), ReaderEventModel::Sent(taken)) => if required && !taken {
            (reader_stopped(s), ReaderActionModel::Stop)
        } else {
            reader_advance(s)
        },
        _ => (reader_stopped(s), ReaderActionModel::Stop),
    }
}

impl<C> Reader<C> {
    /// A reader for a new socket.
    pub fn new() -> (reader: Reader<C>)
        ensures
            reader@ == reader_init::<C>(),
    {
        let reader = Reader {
            first_message: true,
            token: String::new(),
            phase: ReaderPhase::Reading,
            queue: Vec::new(),
            last: false,
        };
        assert(reader@.queue =~= Seq::<DeliveryModel<C>>::empty());
        reader
    }

    /// Gives up the socket.
    fn stop(self) -> (next: (Reader<C>, ReaderAction<C>))
        ensures
            next.0@ == reader_stopped(self@),
            next.1@ == ReaderActionModel::<C>::Stop,
    {
        let queue: Vec<Delivery<C>> = Vec::new();
        let reader = Reader { phase: ReaderPhase::Stopped, queue, ..self };
        assert(reader@.queue =~= Seq::<DeliveryModel<C>>::empty());
        (reader, ReaderAction::Stop)
    }

    /// Goes on with what is left of the current request.
    fn advance(self) -> (next: (Reader<C>, ReaderAction<C>))
        ensures
            (next.0@, next.1@) == reader_advance(self@),
    {
        if self.queue.len() > 0 {
            let mut queue = self.queue;
            let head = queue.remove(0);
            let reader = Reader {
                first_message: self.first_message,
                token: self.token,
                phase: ReaderPhase::Sending(head.required),
                queue,
                last: self.last,
            };
            assert(reader@.queue =~= self@.queue.drop_first());
            (reader, ReaderAction::Send(head.item))
        } else if self.last {
            self.stop()
        } else {
            (Reader { phase: ReaderPhase::Reading, ..self }, ReaderAction::Read)
        }
    }

    /// Takes in a request of a client whose token says `state`.
    fn take_in(self, pass: bool, request: RequestTypes<C>, state: TokenState) -> (reader: Reader<C>)
        ensures
            reader@ == reader_with(self@, pass, request@, state),
    {
        let mut queue: Vec<Delivery<C>> = Vec::new();
        let mut first_message = self.first_message;
        let mut last = false;
        if pass {
            if let RequestTypes::Token(token) = request {
                let reader = Reader { first_message, token, phase: self.phase, queue, last };
                assert(reader@.queue =~= Seq::<DeliveryModel<C>>::empty());
                return reader;
            }
            if !state.as_bool() {
                if !first_message {
                    queue.push(Delivery { item: None, required: true });
                }
                queue.push(
                    Delivery {
                        item: Some(RequestTypes::Page(LOGIN_PAGE.to_owned())),
                        required: false,
                    },
                );
                last = matches!(state, TokenState::NoFingerprint);
                let reader = Reader {
                    first_message,
                    token: self.token,
                    phase: self.phase,
                    queue,
                    last,
                };
                assert(reader@.queue =~= deliveries(pass, self.first_message, request@, state));
                return reader;
            }
        }
        if let RequestTypes::Page(_) = &request {
            if first_message {
                first_message = false;
            } else {
                queue.push(Delivery { item: None, required: true });
            }
        }
        let ghost asked = request@;
        queue.push(Delivery { item: Some(request), required: true });
        let reader = Reader { first_message, token: self.token, phase: self.phase, queue, last };
        assert(reader@.queue =~= deliveries(pass, self.first_message, asked, state));
        reader
    }

    /// One step, given what the client's token says.
    pub fn step_with(self, pass: bool, event: ReaderEvent<C>, state: TokenState) -> (next: (
        Reader<C>,
        ReaderAction<C>,
    ))
        ensures
            (next.0@, next.1@) == reader_step(self@, pass, event@, state),
    {
        match self.phase {
            ReaderPhase::Reading => match event {
                ReaderEvent::Incoming(Some(message)) => match message {
                    Message::Close => self.stop(),
                    Message::Text(text) => (
                        Reader { phase: ReaderPhase::Parsing, ..self },
                        ReaderAction::Parse(text),
                    ),
                    _ => (self, ReaderAction::Read),
                },
                _ => self.stop(),
            },
            ReaderPhase::Parsing => match event {
                ReaderEvent::Parsed(Some(request)) => self.take_in(pass, request, state).advance(),
                ReaderEvent::Parsed(None) => (
                    Reader { phase: ReaderPhase::Reading, ..self },
                    ReaderAction::Read,
                ),
                _ => self.stop(),
            },
            ReaderPhase::Sending(required) => match event {
                ReaderEvent::Sent(taken) => if required && !taken {
                    self.stop()
                } else {
                    self.advance()
                },
                _ => self.stop(),
            },
            ReaderPhase::Stopped => self.stop(),
        }
    }

    /// One step. Where clients have to log in, a request other than a new token has
    /// the token looked at that the client sent last.
    pub fn step(self, config: &Config, fingerprint: Option<&str>, event: ReaderEvent<C>) -> (next: (
        Reader<C>,
        ReaderAction<C>,
    ))
        ensures
            exists|state: TokenState|
                #[trigger] possible_state(
                    config.secret@,
                    self@.token,
                    text_of(fingerprint),
                    state,
                ) && (next.0@, next.1@) == reader_step(self@, config.pass, event@, state),
    {
        let asks = match &event {
            ReaderEvent::Parsed(Some(request)) => !matches!(request, RequestTypes::Token(_)),
            _ => false,
        };
        if config.pass && asks {
            let state = validate_token(self.token.as_str(), fingerprint, config.secret.as_str());
            self.step_with(config.pass, event, state)
        } else {
            proof {
                let state = state_at(config.secret@, self@.token, text_of(fingerprint), 0);
                assert(possible_state(config.secret@, self@.token, text_of(fingerprint), state));
                assert(reader_step(self@, config.pass, event@, state) == reader_step(
                    self@,
                    config.pass,
                    event@,
                    TokenState::InvalidToken,
                ));
            }
            self.step_with(config.pass, event, TokenState::InvalidToken)
        }
    }
}

/// What happens to a reader, with what the client's token says at that time.
pub type ReaderInput<C> = (ReaderEventModel<C>, TokenState);

/// What a reader does in answer to a run of events.
pub open spec fn reader_actions<C>(
    s: ReaderModel<C>,
    pass: bool,
    inputs: Seq<ReaderInput<C>>,
) -> Seq<ReaderActionModel<C>>
    decreases inputs.len(),
{
    if inputs.len() == 0 {
        seq![]
    } else {
        let (next, action) = reader_step(s, pass, inputs[0].0, inputs[0].1);
        seq![action] + reader_actions(next, pass, inputs.drop_first())
    }
}

/// Whether what the tokens say in a run of events is what they can say: of each
/// request, the token that the reader holds by then.
pub open spec fn possible_inputs<C>(
    s: ReaderModel<C>,
    pass: bool,
    secret: Seq<char>,
    fingerprint: Option<Seq<char>>,
    inputs: Seq<ReaderInput<C>>,
) -> bool
    decreases inputs.len(),
{
    inputs.len() > 0 ==> {
        &&& possible_state(secret, s.token, fingerprint, inputs[0].1)
        &&& possible_inputs(
            reader_step(s, pass, inputs[0].0, inputs[0].1).0,
            pass,
            secret,
            fingerprint,
            inputs.drop_first(),
        )
    }
}

/// Whether an item of the queue does no more than lead to the login page.
pub open spec fn leads_to_login<C>(item: Option<RequestModel<C>>) -> bool {
    item matches Some(request) ==> request == RequestModel::<C>::Page(LOGIN_PAGE@)
}

/// Whether none of the tokens that the client sends can ever log it in.
pub open spec fn sends_no_good_token<C>(
    secret: Seq<char>,
    fingerprint: Option<Seq<char>>,
    inputs: Seq<ReaderInput<C>>,
) -> bool {
    forall|i: int|
        0 <= i < inputs.len() ==> ((#[trigger] inputs[i]).0 matches ReaderEventModel::Parsed(
            Some(RequestModel::Token(token)),
        ) ==> !vouches(secret, token, fingerprint))
}

proof fn lemma_only_login_is_reached<C>(
    s: ReaderModel<C>,
    secret: Seq<char>,
    fingerprint: Option<Seq<char>>,
    inputs: Seq<ReaderInput<C>>,
    k: int,
)
    requires
        possible_inputs(s, true, secret, fingerprint, inputs),
        sends_no_good_token(secret, fingerprint, inputs),
        !vouches(secret, s.token, fingerprint),
        forall|i: int| 0 <= i < s.queue.len() ==> leads_to_login((#[trigger] s.queue[i]).item),
        0 <= k < inputs.len(),
    ensures
        reader_actions(s, true, inputs).len() == inputs.len(),
        reader_actions(s, true, inputs)[k] matches ReaderActionModel::Send(item) ==> leads_to_login(
            item,
        ),
    decreases inputs.len(),
{
    let (next, action) = reader_step(s, true, inputs[0].0, inputs[0].1);
    let rest = inputs.drop_first();
    assert(forall|i: int| 0 <= i < rest.len() ==> #[trigger] rest[i] == inputs[i + 1]);
    assert(sends_no_good_token(secret, fingerprint, rest));
    if rest.len() > 0 {
        lemma_only_login_is_reached(next, secret, fingerprint, rest, if k > 0 {
            k - 1
        } else {
            0
        });
    } else {
        assert(reader_actions(next, true, rest).len() == 0);
    }
    assert(action matches ReaderActionModel::Send(item) ==> leads_to_login(item));
}

/// Where clients have to log in, a client that never sends a token signed for its
/// own fingerprint reaches no page but the login page, whatever else it sends.
pub proof fn law_without_a_good_token_only_login_is_reached<C>(
    secret: Seq<char>,
    fingerprint: Option<Seq<char>>,
    inputs: Seq<ReaderInput<C>>,
    k: int,
)
    requires
        possible_inputs(reader_init::<C>(), true, secret, fingerprint, inputs),
        sends_no_good_token(secret, fingerprint, inputs),
        0 <= k < inputs.len(),
    ensures
        reader_actions(reader_init::<C>(), true, inputs)[k] matches ReaderActionModel::Send(item)
            ==> leads_to_login(item),
{
    lemma_only_login_is_reached(reader_init::<C>(), secret, fingerprint, inputs, k);
}

/// Whether a request came in, of all that happened so far, while the client's token was
/// good; a new token is no such request.
pub open spec fn was_served<C>(so_far: Seq<ReaderInput<C>>, request: RequestModel<C>) -> bool {
    !(request is Token) && so_far.contains(
        (ReaderEventModel::Parsed(Some(request)), TokenState::ValidToken),
    )
}

/// Whether an item of the queue leads to the login page or is a request that was served.
pub open spec fn is_earned<C>(
    so_far: Seq<ReaderInput<C>>,
    item: Option<RequestModel<C>>,
) -> bool {
    leads_to_login(item) || (item matches Some(request) && was_served(so_far, request))
}

proof fn lemma_only_served_requests_are_passed_on<C>(
    s: ReaderModel<C>,
    past: Seq<ReaderInput<C>>,
    inputs: Seq<ReaderInput<C>>,
    k: int,
)
    requires
        forall|i: int| 0 <= i < s.queue.len() ==> is_earned(past, (#[trigger] s.queue[i]).item),
        0 <= k < inputs.len(),
    ensures
        reader_actions(s, true, inputs).len() == inputs.len(),
        reader_actions(s, true, inputs)[k] matches ReaderActionModel::Send(item) ==> is_earned(
            past + inputs.take(k + 1),
            item,
        ),
    decreases inputs.len(),
{
    let (next, action) = reader_step(s, true, inputs[0].0, inputs[0].1);
    let rest = inputs.drop_first();
    let now = past.push(inputs[0]);
    assert forall|item: Option<RequestModel<C>>| is_earned(past, item) implies #[trigger] is_earned(
        now,
        item,
    ) by {
        if !leads_to_login(item) {
            let served = (ReaderEventModel::Parsed(item), TokenState::ValidToken);
            let i = choose|i: int| 0 <= i < past.len() && past[i] == served;
            assert(now[i] == served);
        }
    }
    assert(now[past.len() as int] == inputs[0]);
    assert forall|i: int| 0 <= i < next.queue.len() implies is_earned(
        now,
        (#[trigger] next.queue[i]).item,
    ) by {
        if s.phase is Sending && next.queue.len() > 0 {
            assert(next.queue[i] == s.queue[i + 1]);
        }
    }
    assert(action matches ReaderActionModel::Send(item) ==> is_earned(now, item));
    if rest.len() > 0 {
        lemma_only_served_requests_are_passed_on(next, now, rest, if k > 0 {
            k - 1
        } else {
            0
        });
    } else {
        assert(reader_actions(next, true, rest).len() == 0);
    }
    if k > 0 {
        assert(now + rest.take(k) =~= past + inputs.take(k + 1));
    } else {
        assert(now =~= past + inputs.take(1));
    }
}

/// Where clients have to log in, all that ever leaves the reader is what makes a page
/// quit, the way to the login page, and requests that came in while the client's token
/// was good.
pub proof fn law_only_served_requests_are_passed_on<C>(inputs: Seq<ReaderInput<C>>, k: int)
    requires
        0 <= k < inputs.len(),
    ensures
        reader_actions(reader_init::<C>(), true, inputs)[k] matches ReaderActionModel::Send(item)
            ==> is_earned(inputs.take(k + 1), item),
{
    lemma_only_served_requests_are_passed_on(reader_init::<C>(), Seq::empty(), inputs, k);
    assert(Seq::<ReaderInput<C>>::empty() + inputs.take(k + 1) =~= inputs.take(k + 1));
}

proof fn lemma_no_token_is_passed_on<C>(s: ReaderModel<C>, inputs: Seq<ReaderInput<C>>, k: int)
    requires
        forall|i: int|
            0 <= i < s.queue.len() ==> !((#[trigger] s.queue[i]).item matches Some(request)
                && request is Token),
        0 <= k < inputs.len(),
    ensures
        reader_actions(s, true, inputs).len() == inputs.len(),
        !(reader_actions(s, true, inputs)[k] matches ReaderActionModel::Send(Some(request))
            && request is Token),
    decreases inputs.len(),
{
    let (next, action) = reader_step(s, true, inputs[0].0, inputs[0].1);
    let rest = inputs.drop_first();
    if rest.len() > 0 {
        lemma_no_token_is_passed_on(next, rest, if k > 0 {
            k - 1
        } else {
            0
        });
    } else {
        assert(reader_actions(next, true, rest).len() == 0);
    }
}

/// Where clients have to log in, no token leaves the reader.
pub proof fn law_tokens_stay_with_the_reader<C>(inputs: Seq<ReaderInput<C>>, k: int)
    requires
        0 <= k < inputs.len(),
    ensures
        !(reader_actions(reader_init::<C>(), true, inputs)[k] matches ReaderActionModel::Send(
            Some(request),
        ) && request is Token),
{
    lemma_no_token_is_passed_on(reader_init::<C>(), inputs, k);
}

/// Whether an action opens a page.
pub open spec fn opens_page<C>(action: ReaderActionModel<C>) -> bool {
    action matches ReaderActionModel::Send(Some(request)) && request is Page
}

/// Whether an action opens a page that has to quit before another is opened.
pub open spec fn opens_lasting_page<C>(action: ReaderActionModel<C>) -> bool {
    opens_page(action) && action != ReaderActionModel::Send(
        Some(RequestModel::<C>::Page(LOGIN_PAGE@)),
    )
}

proof fn lemma_open_page_quits_first<C>(
    s: ReaderModel<C>,
    previous: ReaderActionModel<C>,
    opened: bool,
    pass: bool,
    inputs: Seq<ReaderInput<C>>,
    k: int,
)
    requires
        opened ==> !s.first_message,
        s.queue.len() > 0 ==> s.queue.len() == 1 && previous == ReaderActionModel::Send(
            None::<RequestModel<C>>,
        ) && !s.first_message && s.phase is Sending,
        0 <= k < inputs.len(),
    ensures
        reader_actions(s, pass, inputs).len() == inputs.len(),
        ({
            let actions = reader_actions(s, pass, inputs);
            let before = if k > 0 {
                actions[k - 1]
            } else {
                previous
            };
            opens_page(actions[k]) && (opened || exists|j: int|
                0 <= j < k && opens_lasting_page(#[trigger] actions[j])) ==> before
                == ReaderActionModel::Send(None::<RequestModel<C>>)
        }),
    decreases inputs.len(),
{
    let (next, action) = reader_step(s, pass, inputs[0].0, inputs[0].1);
    let rest = inputs.drop_first();
    let actions = reader_actions(s, pass, inputs);
    let later = reader_actions(next, pass, rest);
    let opened_next = opened || opens_lasting_page(action);
    assert(opened_next ==> !next.first_message);
    assert(actions == seq![action] + later);
    if rest.len() > 0 {
        lemma_open_page_quits_first(next, action, opened_next, pass, rest, if k > 0 {
            k - 1
        } else {
            0
        });
        if k > 0 && opens_page(actions[k]) && exists|j: int|
            0 <= j < k && opens_lasting_page(#[trigger] actions[j]) {
            let j = choose|j: int| 0 <= j < k && opens_lasting_page(#[trigger] actions[j]);
            if j > 0 {
                assert(opens_lasting_page(later[j - 1]));
            }
        }
    } else {
        assert(later.len() == 0);
    }
}

/// Once a page has been opened, none is opened unless the open one was made to
/// quit right before.
pub proof fn law_open_page_quits_before_another_opens<C>(
    pass: bool,
    inputs: Seq<ReaderInput<C>>,
    j: int,
    k: int,
)
    requires
        0 <= j < k < inputs.len(),
        opens_lasting_page(reader_actions(reader_init::<C>(), pass, inputs)[j]),
        opens_page(reader_actions(reader_init::<C>(), pass, inputs)[k]),
    ensures
        reader_actions(reader_init::<C>(), pass, inputs)[k - 1] == ReaderActionModel::Send(
            None::<RequestModel<C>>,
        ),
{
    lemma_open_page_quits_first(
        reader_init::<C>(),
        ReaderActionModel::Read,
        false,
        pass,
        inputs,
        k,
    );
}

/// A run of `n` items that the queue takes.
pub open spec fn all_taken<C>(n: nat, state: TokenState) -> Seq<ReaderInput<C>> {
    Seq::new(n, |i: int| (ReaderEventModel::Sent(true), state))
}

/// As long as the queue takes them, a request's deliveries all reach it, in order,
/// and the reader then goes on reading; it gives up after the login page where the
/// token is good but the client has no fingerprint.
pub proof fn law_request_is_delivered_whole<C>(
    s: ReaderModel<C>,
    pass: bool,
    request: RequestModel<C>,
    state: TokenState,
)
    requires
        s.phase is Parsing,
    ensures
        ({
            let plan = deliveries(pass, s.first_message, request, state);
            let refused = pass && !(request is Token) && !(state is ValidToken);
            reader_actions(
                s,
                pass,
                seq![(ReaderEventModel::Parsed(Some(request)), state)] + all_taken(
                    plan.len(),
                    state,
                ),
            ) == plan.map_values(
                |delivery: DeliveryModel<C>| ReaderActionModel::Send(delivery.item),
            ) + seq![
                if refused && state is NoFingerprint {
                    ReaderActionModel::Stop
                } else {
                    ReaderActionModel::Read
                },
            ]
        }),
{
    reveal_with_fuel(reader_actions, 4);
    let plan = deliveries(pass, s.first_message, request, state);
    let first: ReaderInput<C> = (ReaderEventModel::Parsed(Some(request)), state);
    let inputs = seq![first] + all_taken(plan.len(), state);
    assert(inputs.drop_first() =~= all_taken(plan.len(), state));
    if plan.len() > 0 {
        let next = all_taken::<C>((plan.len() - 1) as nat, state);
        assert(all_taken::<C>(plan.len(), state).drop_first() =~= next);
        if plan.len() > 1 {
            assert(next.drop_first() =~= all_taken::<C>((plan.len() - 2) as nat, state));
        }
    }
    assert(reader_actions(s, pass, inputs) =~= plan.map_values(
        |delivery: DeliveryModel<C>| ReaderActionModel::Send(delivery.item),
    ) + seq![
        if pass && !(request is Token) && !(state is ValidToken) && state is NoFingerprint {
            ReaderActionModel::Stop
        } else {
            ReaderActionModel::Read
        },
    ]);
}

/// A client that is served has its request passed on unchanged, as the last of
/// the request's deliveries.
pub proof fn law_served_request_is_passed_on<C>(
    pass: bool,
    first_message: bool,
    request: RequestModel<C>,
    state: TokenState,
)
    requires
        admitted(pass, state),
        !is_login_attempt(pass, request),
    ensures
        deliveries(pass, first_message, request, state).last().item == Some(request),
{
}

/// A reader that has given up asks for nothing any more.
pub proof fn law_stopped_reader_stays_stopped<C>(
    s: ReaderModel<C>,
    pass: bool,
    event: ReaderEventModel<C>,
    state: TokenState,
)
    requires
        s.phase is Stopped,
    ensures
        reader_step(s, pass, event, state).0.phase is Stopped,
        reader_step(s, pass, event, state).1 is Stop,
{
}

/// A command to the open page, and every other request that names no page, is delivered
/// by itself for a client that is served: no page is made to quit for it.
pub proof fn law_command_is_delivered_alone<C>(
    pass: bool,
    first_message: bool,
    request: RequestModel<C>,
    state: TokenState,
)
    requires
        pass ==> state is ValidToken,
        !(request is Page),
        pass ==> !(request is Token),
    ensures
        deliveries(pass, first_message, request, state) =~= seq![
            DeliveryModel { item: Some(request), required: true },
        ],
{
}

/// A reader that waits for a frame, with nothing left to do.
pub open spec fn waits<C>(s: ReaderModel<C>) -> bool {
    s.phase is Reading && s.queue.len() == 0 && !s.last
}

/// A new reader waits for a frame; no page was opened yet and no token was sent.
pub proof fn law_reader_starts_afresh<C>()
    ensures
        waits(reader_init::<C>()),
        reader_init::<C>().first_message,
        reader_init::<C>().token.len() == 0,
{
}

/// What becomes of a frame: a text is parsed as it is, other frames are passed over, and
/// the end of the socket ends the reader. A text that is no request is passed over too.
/// Nothing is forgotten over it.
pub proof fn law_frame_is_parsed_or_passed_over<C>(
    s: ReaderModel<C>,
    pass: bool,
    text: Seq<char>,
    bytes: Seq<u8>,
    state: TokenState,
)
    requires
        s.phase is Reading,
    ensures
        ({
            let incoming = |message: Option<MessageModel>|
                reader_step(s, pass, ReaderEventModel::<C>::Incoming(message), state);
            let (parsing, action) = incoming(Some(MessageModel::Text(text)));
            &&& action == ReaderActionModel::<C>::Parse(text)
            &&& reader_step(parsing, pass, ReaderEventModel::Parsed(None), state) == (
                s,
                ReaderActionModel::<C>::Read,
            )
            &&& incoming(Some(MessageModel::Binary(bytes))) == (s, ReaderActionModel::<C>::Read)
            &&& incoming(Some(MessageModel::Other)) == (s, ReaderActionModel::<C>::Read)
            &&& incoming(Some(MessageModel::Close)).1 is Stop
            &&& incoming(None).1 is Stop
        }),
{
}

/// How a request that names no page is served, from the frame that it comes in to the
/// next one: it is parsed and passed on, and nothing else; then the next frame is read,
/// or the reader stops if the queue is gone.
pub proof fn law_served_command_reaches_the_page<C>(
    s: ReaderModel<C>,
    pass: bool,
    text: Seq<char>,
    request: RequestModel<C>,
    state: TokenState,
    taken: bool,
)
    requires
        s.phase is Reading,
        pass ==> state is ValidToken,
        !(request is Page),
        pass ==> !(request is Token),
    ensures
        ({
            let frame = ReaderEventModel::<C>::Incoming(Some(MessageModel::Text(text)));
            let (s1, a1) = reader_step(s, pass, frame, state);
            let (s2, a2) = reader_step(s1, pass, ReaderEventModel::Parsed(Some(request)), state);
            let (s3, a3) = reader_step(s2, pass, ReaderEventModel::Sent(taken), state);
            &&& a1 == ReaderActionModel::<C>::Parse(text)
            &&& a2 == ReaderActionModel::Send(Some(request))
            &&& a3 == if taken {
                ReaderActionModel::<C>::Read
            } else {
                ReaderActionModel::<C>::Stop
            }
            &&& taken ==> waits(s3) && s3.first_message == s.first_message && s3.token == s.token
        }),
{
    law_command_is_delivered_alone(pass, s.first_message, request, state);
}

/// How the request for a page is served, from the frame that it comes in to the next one:
/// the page that is open, if one is, is made to quit, and then the request is passed on.
/// From then on a page is open. The reader stops as soon as the queue is gone.
pub proof fn law_served_page_takes_the_place_of_the_open_one<C>(
    s: ReaderModel<C>,
    pass: bool,
    text: Seq<char>,
    path: Seq<char>,
    state: TokenState,
    taken: bool,
)
    requires
        s.phase is Reading,
        pass ==> state is ValidToken,
    ensures
        ({
            let request = RequestModel::<C>::Page(path);
            let frame = ReaderEventModel::<C>::Incoming(Some(MessageModel::Text(text)));
            let (s1, a1) = reader_step(s, pass, frame, state);
            let (s2, a2) = reader_step(s1, pass, ReaderEventModel::Parsed(Some(request)), state);
            let (s3, a3) = reader_step(s2, pass, ReaderEventModel::Sent(taken), state);
            let (s4, a4) = reader_step(s3, pass, ReaderEventModel::Sent(true), state);
            let end = if s.first_message {
                s3
            } else {
                s4
            };
            &&& a1 == ReaderActionModel::<C>::Parse(text)
            &&& if s.first_message {
                &&& a2 == ReaderActionModel::Send(Some(request))
                &&& taken ==> a3 is Read
            } else {
                &&& a2 == ReaderActionModel::Send(None::<RequestModel<C>>)
                &&& taken ==> a3 == ReaderActionModel::Send(Some(request))
                &&& taken ==> a4 is Read
                &&& taken ==> reader_step(s3, pass, ReaderEventModel::Sent(false), state).1 is Stop
            }
            &&& !taken ==> a3 is Stop
            &&& taken ==> waits(end) && !end.first_message && end.token == s.token
        }),
{
}

/// How a request is refused, from the frame that it comes in to the next one: the page
/// that is open, if one is, is made to quit, and the login page is asked for in place of
/// what the client asked for. Then the next frame is read, whether the login page was
/// reached or not; but the reader stops if the client has no fingerprint.
pub proof fn law_refused_request_leads_to_login<C>(
    s: ReaderModel<C>,
    text: Seq<char>,
    request: RequestModel<C>,
    state: TokenState,
    taken: bool,
)
    requires
        s.phase is Reading,
        !(state is ValidToken),
        !(request is Token),
    ensures
        ({
            let login = ReaderActionModel::Send(Some(RequestModel::<C>::Page("/login"@)));
            let last = if state is NoFingerprint {
                ReaderActionModel::<C>::Stop
            } else {
                ReaderActionModel::<C>::Read
            };
            let frame = ReaderEventModel::<C>::Incoming(Some(MessageModel::Text(text)));
            let (s1, a1) = reader_step(s, true, frame, state);
            let (s2, a2) = reader_step(s1, true, ReaderEventModel::Parsed(Some(request)), state);
            let (s3, a3) = reader_step(s2, true, ReaderEventModel::Sent(taken), state);
            let (s4, a4) = reader_step(s3, true, ReaderEventModel::Sent(taken), state);
            let end = if s.first_message {
                s3
            } else {
                s4
            };
            &&& a1 == ReaderActionModel::<C>::Parse(text)
            &&& if s.first_message {
                a2 == login && a3 == last
            } else {
                &&& a2 == ReaderActionModel::Send(None::<RequestModel<C>>)
                &&& taken ==> a3 == login && a4 == last
                &&& taken ==> reader_step(s3, true, ReaderEventModel::Sent(false), state).1 == last
                &&& !taken ==> a3 is Stop
            }
            &&& taken && state is InvalidToken ==> waits(end) && end.first_message
                == s.first_message && end.token == s.token
        }),
{
}

/// A new token is kept, and nothing else comes of it: the client's next requests are
/// judged by it.
pub proof fn law_new_token_is_kept<C>(
    s: ReaderModel<C>,
    text: Seq<char>,
    token: Seq<char>,
    state: TokenState,
)
    requires
        s.phase is Reading,
    ensures
        ({
            let request = RequestModel::<C>::Token(token);
            let frame = ReaderEventModel::<C>::Incoming(Some(MessageModel::Text(text)));
            let (s1, a1) = reader_step(s, true, frame, state);
            let (s2, a2) = reader_step(s1, true, ReaderEventModel::Parsed(Some(request)), state);
            &&& a1 == ReaderActionModel::<C>::Parse(text)
            &&& a2 == ReaderActionModel::<C>::Read
            &&& waits(s2) && s2.first_message == s.first_message && s2.token == token
        }),
{
}

/// Only a new token changes the token that the reader holds, and only where clients have
/// to log in.
pub proof fn law_nothing_else_changes_the_token<C>(
    s: ReaderModel<C>,
    pass: bool,
    event: ReaderEventModel<C>,
    state: TokenState,
)
    requires
        reader_step(s, pass, event, state).0.token != s.token,
    ensures
        pass,
        event == ReaderEventModel::Parsed(
            Some(RequestModel::<C>::Token(reader_step(s, pass, event, state).0.token)),
        ),
{
}

/// Whether a page was asked for, of all that happened so far, by a client that was
/// served.
pub open spec fn was_opened<C>(pass: bool, so_far: Seq<ReaderInput<C>>) -> bool {
    exists|j: int|
        0 <= j < so_far.len() && (#[trigger] so_far[j]).0 is Parsed && so_far[j].0->Parsed_0 is Some
            && so_far[j].0->Parsed_0->0 is Page && (pass ==> so_far[j].1 is ValidToken)
}

/// Whether something that happens is the request for a page, or a request that is refused.
pub open spec fn ends_a_page<C>(pass: bool, input: ReaderInput<C>) -> bool {
    input.0 matches ReaderEventModel::Parsed(Some(request)) && (request is Page || (pass
        && !(request is Token) && !(input.1 is ValidToken)))
}

proof fn lemma_quit_has_a_cause<C>(
    s: ReaderModel<C>,
    pass: bool,
    past: Seq<ReaderInput<C>>,
    inputs: Seq<ReaderInput<C>>,
    k: int,
)
    requires
        forall|i: int| 0 <= i < s.queue.len() ==> (#[trigger] s.queue[i]).item is Some,
        !s.first_message ==> was_opened(pass, past),
        0 <= k < inputs.len(),
    ensures
        reader_actions(s, pass, inputs).len() == inputs.len(),
        reader_actions(s, pass, inputs)[k] == ReaderActionModel::Send(None::<RequestModel<C>>)
            ==> ends_a_page(pass, inputs[k]) && was_opened(pass, past + inputs.take(k)),
    decreases inputs.len(),
{
    let (next, action) = reader_step(s, pass, inputs[0].0, inputs[0].1);
    let rest = inputs.drop_first();
    let now = past.push(inputs[0]);
    if was_opened(pass, past) {
        let j = choose|j: int|
            0 <= j < past.len() && (#[trigger] past[j]).0 is Parsed && past[j].0->Parsed_0 is Some
                && past[j].0->Parsed_0->0 is Page && (pass ==> past[j].1 is ValidToken);
        assert(now[j] == past[j]);
    }
    assert(now[past.len() as int] == inputs[0]);
    assert(!next.first_message ==> was_opened(pass, now));
    if rest.len() > 0 {
        lemma_quit_has_a_cause(next, pass, now, rest, if k > 0 {
            k - 1
        } else {
            0
        });
    } else {
        assert(reader_actions(next, pass, rest).len() == 0);
    }
    if k > 0 {
        assert(now + rest.take(k - 1) =~= past + inputs.take(k));
    } else {
        assert(past + inputs.take(0) =~= past);
    }
}

/// A page is made to quit only where another page is asked for or a request is refused,
/// and only if a page was opened before.
pub proof fn law_page_quits_only_for_a_page_or_a_login<C>(
    pass: bool,
    inputs: Seq<ReaderInput<C>>,
    k: int,
)
    requires
        0 <= k < inputs.len(),
        reader_actions(reader_init::<C>(), pass, inputs)[k] == ReaderActionModel::Send(
            None::<RequestModel<C>>,
        ),
    ensures
        ends_a_page(pass, inputs[k]),
        was_opened(pass, inputs.take(k)),
{
    lemma_quit_has_a_cause(reader_init::<C>(), pass, Seq::empty(), inputs, k);
    assert(Seq::<ReaderInput<C>>::empty() + inputs.take(k) =~= inputs.take(k));
}

/// Events and actions are modelled by their kinds and all that they hold.
pub proof fn law_reader_is_modelled_whole<C>(
    message: Option<Message>,
    request: Option<RequestTypes<C>>,
    taken: bool,
    text: String,
)
    ensures
        ReaderEvent::<C>::Incoming(message)@ == ReaderEventModel::<C>::Incoming(
            message_of(message),
        ),
        ReaderEvent::Parsed(request)@ == ReaderEventModel::Parsed(request_of(request)),
        ReaderEvent::<C>::Sent(taken)@ == ReaderEventModel::<C>::Sent(taken),
        ReaderAction::<C>::Read@ == ReaderActionModel::<C>::Read,
        ReaderAction::<C>::Parse(text)@ == ReaderActionModel::<C>::Parse(text@),
        ReaderAction::Send(request)@ == ReaderActionModel::Send(request_of(request)),
        ReaderAction::<C>::Stop@ == ReaderActionModel::<C>::Stop,
{
}

} // verus!
