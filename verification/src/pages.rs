//! The answering half of the main socket: which page a client gets.

use vstd::prelude::*;

use crate::message::RequestTypes;
use crate::text::same_text;
#[allow(unused_imports)]
use crate::message::{request_of, RequestModel};
#[allow(unused_imports)]
use crate::reader::{deliveries, leads_to_login, DeliveryModel, LOGIN_PAGE};
#[allow(unused_imports)]
use crate::token::TokenState;

verus! {

/// What asks a client to log in again.
pub const REAUTH_TEXT: &'static str = "{\"reauth\": true}";

/// A page of the dashboard that serves a client until it is made to quit.
#[derive(Debug, Clone, Copy, PartialEq, Eq, Structural)]
pub enum Page {
    Main,
    Process,
    Software,
    Management,
    Service,
    Browser,
}

/// Where the path of a page leads.
#[derive(Debug, Clone, Copy, PartialEq, Eq, Structural)]
pub enum Route {
    /// To a page.
    To(Page),
    /// To the login form.
    Login,
    /// Nowhere.
    Unknown,
}

/// Where the path of a page leads.
pub open spec fn route_of(path: Seq<char>) -> Route {
    if path == "/"@ {
        Route::To(Page::Main)
    } else if path == "/process"@ {
        Route::To(Page::Process)
    } else if path == "/software"@ {
        Route::To(Page::Software)
    } else if path == "/management"@ {
        Route::To(Page::Management)
    } else if path == "/service"@ {
        Route::To(Page::Service)
    } else if path == "/browser"@ {
        Route::To(Page::Browser)
    } else if path == "/login"@ {
        Route::Login
    } else {
        Route::Unknown
    }
}

/// Where the path of a page leads.
pub fn route(path: &str) -> (to: Route)
    ensures
        to == route_of(path@),
{
    if same_text(path, "/") {
        Route::To(Page::Main)
    } else if same_text(path, "/process") {
        Route::To(Page::Process)
    } else if same_text(path, "/software") {
        Route::To(Page::Software)
    } else if same_text(path, "/management") {
        Route::To(Page::Management)
    } else if same_text(path, "/service") {
        Route::To(Page::Service)
    } else if same_text(path, "/browser") {
        Route::To(Page::Browser)
    } else if same_text(path, "/login") {
        Route::Login
    } else {
        Route::Unknown
    }
}

/// What the answering half waits for.
#[derive(Debug, Clone, Copy, PartialEq, Eq, Structural)]
pub enum PagesPhase {
    /// The socket, which was handed the data that every page shows.
    Greeting,
    /// The next item of the queue.
    Waiting,
    /// An open page.
    Open,
    /// The socket, which was handed the request to log in again.
    Asking,
    /// Nothing any more.
    Stopped,
}

/// What happens to the answering half.
#[derive(Debug, PartialEq, Eq)]
pub enum PagesEvent<C> {
    /// The socket took a message, or did not.
    Sent(bool),
    /// An item came out of the queue; nothing, if the queue has ended. The item
    /// itself is nothing where a page is made to quit.
    Received(Option<Option<RequestTypes<C>>>),
    /// A page was left; `true`, if the socket is to be given up.
    Left(bool),
}

/// The model of a [`PagesEvent`].
pub enum PagesEventModel<C> {
    Sent(bool),
    Received(Option<Option<RequestModel<C>>>),
    Left(bool),
}

impl<C> View for PagesEvent<C> {
    type V = PagesEventModel<C>;

    open spec fn view(&self) -> PagesEventModel<C> {
        match self {
            PagesEvent::Sent(taken) => PagesEventModel::Sent(*taken),
            PagesEvent::Received(Some(item)) => PagesEventModel::Received(Some(request_of(*item))),
            PagesEvent::Received(None) => PagesEventModel::Received(None),
            PagesEvent::Left(done) => PagesEventModel::Left(*done),
        }
    }
}

/// What the answering half wants done next.
#[derive(Debug, PartialEq, Eq)]
pub enum PagesAction {
    /// Send the data that every page shows.
    Greet,
    /// Wait for an item of the queue.
    Receive,
    /// Let a page serve the client.
    Open(Page),
    /// Send a text.
    SendText(String),
    /// Give up the socket.
    Stop,
}

/// The model of a [`PagesAction`].
pub enum PagesActionModel {
    Greet,
    Receive,
    Open(Page),
    SendText(Seq<char>),
    Stop,
}

impl View for PagesAction {
    type V = PagesActionModel;

    open spec fn view(&self) -> PagesActionModel {
        match self {
            PagesAction::Greet => PagesActionModel::Greet,
            PagesAction::Receive => PagesActionModel::Receive,
            PagesAction::Open(page) => PagesActionModel::Open(*page),
            PagesAction::SendText(text) => PagesActionModel::SendText(text@),
            PagesAction::Stop => PagesActionModel::Stop,
        }
    }
}

/// One step of the answering half. The client is greeted first; then a page serves
/// it until it is left, page after page. What is no page, and what leads nowhere,
/// is passed over while no page is open. An event that is not waited for ends it.
pub open spec fn pages_step<C>(phase: PagesPhase, event: PagesEventModel<C>) -> (
    PagesPhase,
    PagesActionModel,
) {
    match (phase, event) {
        (PagesPhase::Greeting, PagesEventModel::Sent(true)) => (
            PagesPhase::Waiting,
            PagesActionModel::Receive,
        ),
        (PagesPhase::Waiting, PagesEventModel::Received(Some(Some(request)))) => match request {
            RequestModel::Page(path) => match route_of(path) {
                Route::To(page) => (PagesPhase::Open, PagesActionModel::Open(page)),
                Route::Login => (PagesPhase::Asking, PagesActionModel::SendText(REAUTH_TEXT@)),
                Route::Unknown => (PagesPhase::Waiting, PagesActionModel::Receive),
            },
            _ => (PagesPhase::Waiting, PagesActionModel::Receive),
        },
        (PagesPhase::Open, PagesEventModel::Left(false)) => (
            PagesPhase::Waiting,
            PagesActionModel::Receive,
        ),
        (PagesPhase::Asking, PagesEventModel::Sent(true)) => (
            PagesPhase::Waiting,
            PagesActionModel::Receive,
        ),
        _ => (PagesPhase::Stopped, PagesActionModel::Stop),
    }
}

/// The answering half of a client's main socket.
#[derive(Debug, PartialEq, Eq)]
pub struct Pages {
    phase: PagesPhase,
}

impl View for Pages {
    type V = PagesPhase;

    closed spec fn view(&self) -> PagesPhase {
        self.phase
    }
}

impl Pages {
    /// The answering half of a new socket, and the first thing that it wants done.
    pub fn start() -> (started: (Pages, PagesAction))
        ensures
            started.0@ == PagesPhase::Greeting,
            started.1@ == PagesActionModel::Greet,
    {
        (Pages { phase: PagesPhase::Greeting }, PagesAction::Greet)
    }

    /// One step.
    pub fn step<C>(self, event: PagesEvent<C>) -> (next: (Pages, PagesAction))
        ensures
            (next.0@, next.1@) == pages_step(self@, event@),
    {
        match (self.phase, event) {
            (PagesPhase::Greeting, PagesEvent::Sent(true)) => (
                Pages { phase: PagesPhase::Waiting },
                PagesAction::Receive,
            ),
            (PagesPhase::Waiting, PagesEvent::Received(Some(Some(request)))) => match request {
                RequestTypes::Page(path) => match route(path.as_str()) {
                    Route::To(page) => (Pages { phase: PagesPhase::Open }, PagesAction::Open(page)),
                    Route::Login => (
                        Pages { phase: PagesPhase::Asking },
                        PagesAction::SendText(REAUTH_TEXT.to_owned()),
                    ),
                    Route::Unknown => (Pages { phase: PagesPhase::Waiting }, PagesAction::Receive),
                },
                _ => (Pages { phase: PagesPhase::Waiting }, PagesAction::Receive),
            },
            (PagesPhase::Open, PagesEvent::Left(false)) => (
                Pages { phase: PagesPhase::Waiting },
                PagesAction::Receive,
            ),
            (PagesPhase::Asking, PagesEvent::Sent(true)) => (
                Pages { phase: PagesPhase::Waiting },
                PagesAction::Receive,
            ),
            _ => (Pages { phase: PagesPhase::Stopped }, PagesAction::Stop),
        }
    }
}

/// The paths of the pages and of the login page all differ.
proof fn lemma_paths_differ()
    ensures
        "/"@.len() == 1,
        "/process"@.len() == 8 && "/process"@[1] == 'p',
        "/software"@.len() == 9,
        "/management"@.len() == 11,
        "/service"@.len() == 8 && "/service"@[1] == 's',
        "/browser"@.len() == 8 && "/browser"@[1] == 'b',
        "/login"@.len() == 6,
{
    reveal_strlit("/");
    reveal_strlit("/process");
    reveal_strlit("/software");
    reveal_strlit("/management");
    reveal_strlit("/service");
    reveal_strlit("/browser");
    reveal_strlit("/login");
}

/// A request of a client that is not logged in is answered with the request to log
/// in again: that is what its last delivery makes of the answering half, as soon as
/// no page is open.
pub proof fn law_refused_request_is_answered_with_reauth<C>(
    first_message: bool,
    request: RequestModel<C>,
    state: TokenState,
)
    requires
        !(request is Token),
        !(state is ValidToken),
    ensures
        pages_step(
            PagesPhase::Waiting,
            PagesEventModel::Received(Some(deliveries(true, first_message, request, state).last().item)),
        ) == (PagesPhase::Asking, PagesActionModel::SendText(REAUTH_TEXT@)),
{
    lemma_paths_differ();
}

/// What does no more than lead to the login page opens no page, whatever the answering
/// half waits for.
pub proof fn law_the_way_to_login_opens_no_page<C>(
    phase: PagesPhase,
    item: Option<RequestModel<C>>,
)
    requires
        leads_to_login(item),
    ensures
        !(pages_step(phase, PagesEventModel::Received(Some(item))).1 is Open),
{
    lemma_paths_differ();
}

/// No two paths lead to the same page, nor to the login form.
pub proof fn law_a_page_has_one_path(left: Seq<char>, right: Seq<char>)
    requires
        route_of(left) == route_of(right),
        !(route_of(left) is Unknown),
    ensures
        left == right,
{
}

/// Each page is opened by its own path and by no other; the path of the login page asks
/// for a new login; every other path is passed over.
pub proof fn law_page_is_opened_by_its_own_path<C>(path: Seq<char>)
    ensures
        ({
            let (phase, action) = pages_step(
                PagesPhase::Waiting,
                PagesEventModel::Received(Some(Some(RequestModel::<C>::Page(path)))),
            );
            &&& action == PagesActionModel::Open(Page::Main) <==> path == "/"@
            &&& action == PagesActionModel::Open(Page::Process) <==> path == "/process"@
            &&& action == PagesActionModel::Open(Page::Software) <==> path == "/software"@
            &&& action == PagesActionModel::Open(Page::Management) <==> path == "/management"@
            &&& action == PagesActionModel::Open(Page::Service) <==> path == "/service"@
            &&& action == PagesActionModel::Open(Page::Browser) <==> path == "/browser"@
            &&& action == PagesActionModel::SendText("{\"reauth\": true}"@) <==> path == "/login"@
            &&& action is Open || action is SendText || action is Receive
            &&& action is SendText ==> path == "/login"@
            &&& action is Open ==> phase is Open
            &&& action is SendText ==> phase is Asking
            &&& action is Receive ==> phase is Waiting
        }),
{
    lemma_paths_differ();
}

/// Two requests that open the same page name the same path.
pub proof fn law_different_paths_open_different_pages<C>(left: Seq<char>, right: Seq<char>)
    requires
        pages_step(
            PagesPhase::Waiting,
            PagesEventModel::Received(Some(Some(RequestModel::<C>::Page(left)))),
        ).1 is Open,
        pages_step(
            PagesPhase::Waiting,
            PagesEventModel::Received(Some(Some(RequestModel::<C>::Page(left)))),
        ).1 == pages_step(
            PagesPhase::Waiting,
            PagesEventModel::Received(Some(Some(RequestModel::<C>::Page(right)))),
        ).1,
    ensures
        left == right,
{
    law_page_is_opened_by_its_own_path::<C>(left);
    law_page_is_opened_by_its_own_path::<C>(right);
}

/// While no page is open, a request that names no page is passed over.
pub proof fn law_request_without_a_page_is_passed_over<C>(request: RequestModel<C>)
    requires
        !(request is Page),
    ensures
        pages_step(PagesPhase::Waiting, PagesEventModel::Received(Some(Some(request)))) == (
            PagesPhase::Waiting,
            PagesActionModel::Receive,
        ),
{
}

/// After each greeting and each new login that the client was asked for, and after each
/// page, the next request is waited for if and only if the client is still there. Where
/// no page is open, a page that is to quit, and the end of the requests, end it.
pub proof fn law_pages_are_served_until_the_client_is_gone<C>(there: bool)
    ensures
        ({
            let next = if there {
                (PagesPhase::Waiting, PagesActionModel::Receive)
            } else {
                (PagesPhase::Stopped, PagesActionModel::Stop)
            };
            &&& pages_step::<C>(PagesPhase::Greeting, PagesEventModel::Sent(there)) == next
            &&& pages_step::<C>(PagesPhase::Asking, PagesEventModel::Sent(there)) == next
            &&& pages_step::<C>(PagesPhase::Open, PagesEventModel::Left(!there)) == next
            &&& pages_step::<C>(PagesPhase::Waiting, PagesEventModel::Received(Some(None))).1 is Stop
            &&& pages_step::<C>(PagesPhase::Waiting, PagesEventModel::Received(None)).1 is Stop
        }),
{
}

/// An answering half that was given up asks for nothing any more.
pub proof fn law_stopped_pages_stay_stopped<C>(event: PagesEventModel<C>)
    ensures
        pages_step(PagesPhase::Stopped, event) == (PagesPhase::Stopped, PagesActionModel::Stop),
{
}

/// Events and actions are modelled by their kinds and all that they hold.
pub proof fn law_pages_are_modelled_whole<C>(
    flag: bool,
    item: Option<RequestTypes<C>>,
    page: Page,
    text: String,
)
    ensures
        PagesEvent::<C>::Sent(flag)@ == PagesEventModel::<C>::Sent(flag),
        PagesEvent::<C>::Left(flag)@ == PagesEventModel::<C>::Left(flag),
        PagesEvent::Received(Some(item))@ == PagesEventModel::Received(Some(request_of(item))),
        PagesEvent::<C>::Received(None)@ == PagesEventModel::<C>::Received(None),
        PagesAction::Greet@ == PagesActionModel::Greet,
        PagesAction::Receive@ == PagesActionModel::Receive,
        PagesAction::Open(page)@ == PagesActionModel::Open(page),
        PagesAction::SendText(text)@ == PagesActionModel::SendText(text@),
        PagesAction::Stop@ == PagesActionModel::Stop,
{
}

} // verus!
