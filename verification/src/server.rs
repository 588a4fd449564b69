//! The query surface: which request asks for what, and the hub that hands announcements to
//! the subscribers of the socket. Paths, queries and header values are taken as bytes.

use crate::search::{
    first_where, is_first_where, lemma_first_where_found, lemma_first_where_missing,
};
use crate::text::{
    ascii, ascii_bytes, copy_range, find_byte, parse_signed, parse_unsigned, signed_number,
    unsigned_number,
};
use crate::types::{BroadcastMessage, BroadcastMessageView};
use vstd::prelude::*;

verus! {

/// A request for the history of a pair of tokens.
#[derive(Debug, Clone, Copy, PartialEq, Eq, Structural)]
pub struct HistoryRequest {
    pub asset1: i64,
    pub asset2: i64,
    pub count: u64,
}

/// What a request asks for.
#[derive(Debug, Clone, Copy, PartialEq, Eq, Structural)]
pub enum Route {
    Health,
    ExchangeRates,
    Socket,
    Assets,
    MeanHistory(HistoryRequest),
    AssetSwap(HistoryRequest),
    /// A history whose path or query cannot be read.
    BadRequest,
    /// Anything else.
    NotFound,
}

/// The number of entries of a history where the request names none.
pub const DEFAULT_COUNT: u64 = 10;

/// `/health`
pub open spec fn health_path() -> Seq<u8> {
    ascii("/health"@)
}

/// `/exchange_rates`
pub open spec fn exchange_rates_path() -> Seq<u8> {
    ascii("/exchange_rates"@)
}

/// `/socket`
pub open spec fn socket_path() -> Seq<u8> {
    ascii("/socket"@)
}

/// `/assets`
pub open spec fn assets_path() -> Seq<u8> {
    ascii("/assets"@)
}

/// `/mean_history/`
pub open spec fn mean_history_prefix() -> Seq<u8> {
    ascii("/mean_history/"@)
}

/// `/asset_swap/`
pub open spec fn asset_swap_prefix() -> Seq<u8> {
    ascii("/asset_swap/"@)
}

/// `count=`
pub open spec fn count_key() -> Seq<u8> {
    ascii("count="@)
}

/// `websocket`
pub open spec fn websocket_name() -> Seq<u8> {
    ascii("websocket"@)
}

/// `13`
pub open spec fn websocket_version() -> Seq<u8> {
    ascii("13"@)
}

/// Whether `text` begins with `prefix`.
pub open spec fn begins_with(text: Seq<u8>, prefix: Seq<u8>) -> bool {
    prefix.len() <= text.len() && text.take(prefix.len() as int) == prefix
}

/// Whether a byte is `/`.
pub open spec fn is_slash() -> spec_fn(u8) -> bool {
    |byte: u8| byte == '/' as u8
}

/// The number of entries that a query asks for: the default without a query, else the
/// number after `count=`.
pub open spec fn count_of(query: Option<Seq<u8>>) -> Option<u64> {
    match query {
        None => Some(DEFAULT_COUNT),
        Some(query) => if begins_with(query, count_key()) {
            unsigned_number(query.skip(count_key().len() as int))
        } else {
            None
        },
    }
}

/// The pair of tokens that the rest of a path names: two numbers with `/` between them.
pub open spec fn pair_of(rest: Seq<u8>) -> Option<(i64, i64)> {
    match first_where(rest, is_slash()) {
        None => None,
        Some(at) => match (signed_number(rest.take(at)), signed_number(rest.skip(at + 1))) {
            (Some(asset1), Some(asset2)) => Some((asset1, asset2)),
            _ => None,
        },
    }
}

/// The request for a history that the rest of a path and a query make.
pub open spec fn history_request(rest: Seq<u8>, query: Option<Seq<u8>>) -> Option<HistoryRequest> {
    match (count_of(query), pair_of(rest)) {
        (Some(count), Some((asset1, asset2))) => Some(HistoryRequest { asset1, asset2, count }),
        _ => None,
    }
}

/// What a request asks for, by its method, its path and its query.
pub open spec fn route_of(is_get: bool, path: Seq<u8>, query: Option<Seq<u8>>) -> Route {
    if !is_get {
        Route::NotFound
    } else if path == health_path() {
        Route::Health
    } else if path == exchange_rates_path() {
        Route::ExchangeRates
    } else if path == socket_path() {
        Route::Socket
    } else if path == assets_path() {
        Route::Assets
    } else if begins_with(path, mean_history_prefix()) {
        match history_request(path.skip(mean_history_prefix().len() as int), query) {
            Some(request) => Route::MeanHistory(request),
            None => Route::BadRequest,
        }
    } else if begins_with(path, asset_swap_prefix()) {
        match history_request(path.skip(asset_swap_prefix().len() as int), query) {
            Some(request) => Route::AssetSwap(request),
            None => Route::BadRequest,
        }
    } else {
        Route::NotFound
    }
}

fn starts_with(text: &[u8], prefix: &Vec<u8>) -> (yes: bool)
    ensures
        yes == begins_with(text@, prefix@),
{
    if prefix.len() > text.len() {
        return false;
    }
    let mut i: usize = 0;
    while i < prefix.len()
        invariant
            i <= prefix@.len(),
            prefix@.len() <= text@.len(),
            text@.take(i as int) == prefix@.take(i as int),
        decreases prefix@.len() - i,
    {
        if text[i] != prefix[i] {
            assert(text@.take(prefix@.len() as int)[i as int] != prefix@[i as int]);
            return false;
        }
        assert(text@.take(i as int + 1) =~= text@.take(i as int).push(text@[i as int]));
        assert(prefix@.take(i as int + 1) =~= prefix@.take(i as int).push(prefix@[i as int]));
        i = i + 1;
    }
    assert(prefix@.take(prefix@.len() as int) =~= prefix@);
    true
}

fn is_exactly(text: &[u8], wanted: &Vec<u8>) -> (yes: bool)
    ensures
        yes == (text@ == wanted@),
{
    if text.len() != wanted.len() {
        return false;
    }
    let yes = starts_with(text, wanted);
    assert(text@.take(text@.len() as int) =~= text@);
    yes
}

fn rest_of(text: &[u8], from: usize) -> (rest: Vec<u8>)
    requires
        from <= text@.len(),
    ensures
        rest@ == text@.skip(from as int),
{
    let rest = copy_range(text, from, text.len());
    assert(text@.subrange(from as int, text@.len() as int) =~= text@.skip(from as int));
    rest
}

/// The number of entries that a query asks for.
pub fn parse_count(query: Option<&[u8]>) -> (count: Option<u64>)
    ensures
        count == count_of(
            match query {
                Some(q) => Some(q@),
                None => None,
            },
        ),
{
    match query {
        None => Some(DEFAULT_COUNT),
        Some(query) => {
            proof {
                reveal_strlit("count=");
            }
            let key = ascii_bytes("count=");
            assert(count_key().len() == 6);
            if starts_with(query, &key) {
                let rest = rest_of(query, 6);
                parse_unsigned(rest.as_slice())
            } else {
                None
            }
        },
    }
}

/// The pair of tokens that the rest of a path names.
pub fn parse_pair(rest: &[u8]) -> (pair: Option<(i64, i64)>)
    ensures
        pair == pair_of(rest@),
{
    let at = match find_byte(rest, 0, '/' as u8) {
        Some(at) => at,
        None => {
            proof {
                lemma_first_where_missing(rest@, is_slash());
            }
            return None;
        },
    };
    proof {
        assert(is_first_where(rest@, is_slash(), at as int));
        lemma_first_where_found(rest@, is_slash(), at as int);
    }
    let first = copy_range(rest, 0, at);
    assert(rest@.subrange(0, at as int) =~= rest@.take(at as int));
    let len = rest.len();
    assert(at < len);
    let second = rest_of(rest, at + 1);
    match (parse_signed(first.as_slice()), parse_signed(second.as_slice())) {
        (Some(asset1), Some(asset2)) => Some((asset1, asset2)),
        _ => None,
    }
}

fn parse_history(rest: &[u8], query: Option<&[u8]>) -> (request: Option<HistoryRequest>)
    ensures
        request == history_request(
            rest@,
            match query {
                Some(q) => Some(q@),
                None => None,
            },
        ),
{
    match (parse_count(query), parse_pair(rest)) {
        (Some(count), Some((asset1, asset2))) => Some(HistoryRequest { asset1, asset2, count }),
        _ => None,
    }
}

/// What a request asks for, by its method, its path and its query.
pub fn route(is_get: bool, path: &[u8], query: Option<&[u8]>) -> (asked: Route)
    ensures
        asked == route_of(
            is_get,
            path@,
            match query {
                Some(q) => Some(q@),
                None => None,
            },
        ),
{
    if !is_get {
        return Route::NotFound;
    }
    proof {
        reveal_strlit("/health");
        reveal_strlit("/exchange_rates");
        reveal_strlit("/socket");
        reveal_strlit("/assets");
        reveal_strlit("/mean_history/");
        reveal_strlit("/asset_swap/");
    }
    let health = ascii_bytes("/health");
    let rates = ascii_bytes("/exchange_rates");
    let socket = ascii_bytes("/socket");
    let assets = ascii_bytes("/assets");
    let mean = ascii_bytes("/mean_history/");
    let swap = ascii_bytes("/asset_swap/");
    if is_exactly(path, &health) {
        Route::Health
    } else if is_exactly(path, &rates) {
        Route::ExchangeRates
    } else if is_exactly(path, &socket) {
        Route::Socket
    } else if is_exactly(path, &assets) {
        Route::Assets
    } else if starts_with(path, &mean) {
        let rest = rest_of(path, 14);
        match parse_history(rest.as_slice(), query) {
            Some(request) => Route::MeanHistory(request),
            None => Route::BadRequest,
        }
    } else if starts_with(path, &swap) {
        let rest = rest_of(path, 12);
        match parse_history(rest.as_slice(), query) {
            Some(request) => Route::AssetSwap(request),
            None => Route::BadRequest,
        }
    } else {
        Route::NotFound
    }
}

/// A byte with an upper-case letter of ASCII turned into the lower-case one.
pub open spec fn lowered(byte: u8) -> u8 {
    if 'A' as u8 <= byte <= 'Z' as u8 {
        (byte + 32) as u8
    } else {
        byte
    }
}

/// Whether a header value is `wanted` but for the case of its letters.
pub open spec fn value_is(value: Option<Seq<u8>>, wanted: Seq<u8>) -> bool {
    value matches Some(v) && v.len() == wanted.len() && forall|i: int|
        0 <= i < v.len() ==> lowered(#[trigger] v[i]) == wanted[i]
}

/// Whether a request may be upgraded to a socket: it asks for an upgrade to `websocket` in
/// the version 13, its connection header names the upgrade, and it carries a key.
pub open spec fn may_upgrade(
    upgrade: Option<Seq<u8>>,
    version: Option<Seq<u8>>,
    connection_upgrades: bool,
    has_key: bool,
) -> bool {
    &&& value_is(upgrade, websocket_name())
    &&& value_is(version, websocket_version())
    &&& connection_upgrades
    &&& has_key
}

fn header_matches(value: Option<&[u8]>, wanted: &Vec<u8>) -> (yes: bool)
    ensures
        yes == value_is(
            match value {
                Some(v) => Some(v@),
                None => None,
            },
            wanted@,
        ),
{
    let bytes = match value {
        Some(bytes) => bytes,
        None => {
            return false;
        },
    };
    if bytes.len() != wanted.len() {
        return false;
    }
    let mut i: usize = 0;
    while i < bytes.len()
        invariant
            i <= bytes@.len(),
            value == Some(bytes),
            bytes@.len() == wanted@.len(),
            forall|k: int| 0 <= k < i ==> lowered(#[trigger] bytes@[k]) == wanted@[k],
        decreases bytes@.len() - i,
    {
        let byte = bytes[i];
        let low = if byte >= 'A' as u8 && byte <= 'Z' as u8 {
            byte + 32
        } else {
            byte
        };
        if low != wanted[i] {
            assert(lowered(bytes@[i as int]) != wanted@[i as int]);
            return false;
        }
        i = i + 1;
    }
    true
}

/// Whether a request may be upgraded to a socket, given the values of its `Upgrade` and
/// `Sec-WebSocket-Version` headers, whether its `Connection` header names the upgrade, and
/// whether it carries a `Sec-WebSocket-Key`.
pub fn upgrade_connection(
    upgrade: Option<&[u8]>,
    version: Option<&[u8]>,
    connection_upgrades: bool,
    has_key: bool,
) -> (accepted: bool)
    ensures
        accepted == may_upgrade(
            match upgrade {
                Some(v) => Some(v@),
                None => None,
            },
            match version {
                Some(v) => Some(v@),
                None => None,
            },
            connection_upgrades,
            has_key,
        ),
{
    proof {
        reveal_strlit("websocket");
        reveal_strlit("13");
    }
    let name = ascii_bytes("websocket");
    let number = ascii_bytes("13");
    let named = header_matches(upgrade, &name);
    let numbered = header_matches(version, &number);
    named && numbered && connection_upgrades && has_key
}

/// The status of the answer to a request: 200 where it is answered, 101 for a socket that
/// is upgraded, 400 for a request that cannot be read or a socket that cannot be upgraded,
/// 404 for a request for nothing, 500 where the store fails.
pub open spec fn status_of(asked: Route, upgrades: bool, store_fails: bool) -> u16 {
    match asked {
        Route::Health => 200,
        Route::Socket => if upgrades {
            101
        } else {
            400
        },
        Route::BadRequest => 400,
        Route::NotFound => 404,
        _ => if store_fails {
            500
        } else {
            200
        },
    }
}

/// The status of the answer to a request.
pub fn response_status(asked: &Route, upgrades: bool, store_fails: bool) -> (status: u16)
    ensures
        status == status_of(*asked, upgrades, store_fails),
{
    match asked {
        Route::Health => 200,
        Route::Socket => if upgrades {
            101
        } else {
            400
        },
        Route::BadRequest => 400,
        Route::NotFound => 404,
        _ => if store_fails {
            500
        } else {
            200
        },
    }
}

/// The number of announcements that the hub keeps for a subscriber who has not taken them.
pub const CAPACITY: usize = 16;

/// One subscriber of the hub, with the announcements that wait for it, oldest first.
pub struct Subscriber {
    pub(crate) id: u64,
    pub(crate) pending: Vec<BroadcastMessage>,
}

/// What a subscriber is.
pub struct SubscriberView {
    pub id: u64,
    pub pending: Seq<BroadcastMessageView>,
}

impl View for Subscriber {
    type V = SubscriberView;

    closed spec fn view(&self) -> SubscriberView {
        SubscriberView { id: self.id, pending: self.pending.deep_view() }
    }
}

impl DeepView for Subscriber {
    type V = SubscriberView;

    open spec fn deep_view(&self) -> SubscriberView {
        self@
    }
}

/// The hub: every announcement that is published waits for every subscriber until the
/// subscriber takes it.
pub struct Hub {
    pub(crate) subscribers: Vec<Subscriber>,
    pub(crate) next_id: u64,
}

/// What a hub is.
pub struct HubView {
    pub subscribers: Seq<SubscriberView>,
    pub next_id: u64,
}

impl View for Hub {
    type V = HubView;

    closed spec fn view(&self) -> HubView {
        HubView { subscribers: self.subscribers.deep_view(), next_id: self.next_id }
    }
}

/// Whether a subscriber has this identifier.
pub open spec fn is_subscriber(id: u64) -> spec_fn(SubscriberView) -> bool {
    |subscriber: SubscriberView| subscriber.id == id
}

impl HubView {
    /// What holds of a hub at all times: identifiers are below the next one and none is
    /// used twice, and no subscriber is owed more than the capacity.
    pub open spec fn wf(self) -> bool {
        &&& forall|i: int|
            0 <= i < self.subscribers.len() ==> (#[trigger] self.subscribers[i]).id < self.next_id
                && self.subscribers[i].pending.len() <= CAPACITY
        &&& forall|i: int, j: int|
            0 <= i < j < self.subscribers.len() ==> (#[trigger] self.subscribers[i]).id != (
            #[trigger] self.subscribers[j]).id
    }

    /// What waits for a subscriber, oldest first.
    pub open spec fn pending_of(self, id: u64) -> Option<Seq<BroadcastMessageView>> {
        match first_where(self.subscribers, is_subscriber(id)) {
            Some(at) => Some(self.subscribers[at].pending),
            None => None,
        }
    }
}

/// What waits for a subscriber after one more announcement: the announcement comes last, and
/// where more than the capacity would wait, the oldest one is dropped.
pub open spec fn kept(pending: Seq<BroadcastMessageView>, message: BroadcastMessageView) -> Seq<
    BroadcastMessageView,
> {
    if pending.len() >= CAPACITY {
        pending.skip(pending.len() - CAPACITY + 1).push(message)
    } else {
        pending.push(message)
    }
}

/// The hub after an announcement was published: it waits for every subscriber.
pub open spec fn published(hub: HubView, message: BroadcastMessageView) -> HubView {
    HubView {
        subscribers: Seq::new(
            hub.subscribers.len(),
            |i: int|
                SubscriberView {
                    id: hub.subscribers[i].id,
                    pending: kept(hub.subscribers[i].pending, message),
                },
        ),
        ..hub
    }
}

/// The hub after the first `count` of some announcements were published, in their order.
pub open spec fn published_all(
    hub: HubView,
    messages: Seq<BroadcastMessageView>,
    count: int,
) -> HubView
    decreases count,
{
    if count <= 0 {
        hub
    } else {
        published(published_all(hub, messages, count - 1), messages[count - 1])
    }
}

/// The hub with one more subscriber, for whom nothing waits yet.
pub open spec fn subscribed(hub: HubView) -> HubView {
    HubView {
        subscribers: hub.subscribers.push(
            SubscriberView { id: hub.next_id, pending: Seq::empty() },
        ),
        next_id: (hub.next_id + 1) as u64,
    }
}

/// The hub without the subscriber at `at`.
pub open spec fn unsubscribed(hub: HubView, at: int) -> HubView {
    HubView { subscribers: hub.subscribers.remove(at), ..hub }
}

/// The hub after the subscriber at `at` took the oldest announcement that waited for it.
pub open spec fn taken(hub: HubView, at: int) -> HubView {
    HubView {
        subscribers: hub.subscribers.update(
            at,
            SubscriberView {
                id: hub.subscribers[at].id,
                pending: hub.subscribers[at].pending.skip(1),
            },
        ),
        ..hub
    }
}

impl Hub {
    /// What holds of a hub at all times.
    pub open spec fn wf(&self) -> bool {
        self@.wf()
    }

    /// A hub without subscribers.
    pub fn new() -> (hub: Hub)
        ensures
            hub.wf(),
            hub@.subscribers.len() == 0,
            hub@.next_id == 0,
    {
        Hub { subscribers: Vec::new(), next_id: 0 }
    }

    fn find(&self, id: u64) -> (found: Option<usize>)
        ensures
            found.is_some() == first_where(self@.subscribers, is_subscriber(id)).is_some(),
            found matches Some(at) ==> Some(at as int) == first_where(
                self@.subscribers,
                is_subscriber(id),
            ) && at < self@.subscribers.len(),
    {
        let ghost wanted = is_subscriber(id);
        let mut i: usize = 0;
        while i < self.subscribers.len()
            invariant
                i <= self.subscribers@.len(),
                wanted == is_subscriber(id),
                forall|j: int| 0 <= j < i ==> !wanted(#[trigger] self@.subscribers[j]),
            decreases self.subscribers@.len() - i,
        {
            if self.subscribers[i].id == id {
                proof {
                    assert(wanted(self@.subscribers[i as int]));
                    assert(is_first_where(self@.subscribers, wanted, i as int));
                    lemma_first_where_found(self@.subscribers, wanted, i as int);
                }
                return Some(i);
            }
            i = i + 1;
        }
        proof {
            lemma_first_where_missing(self@.subscribers, wanted);
        }
        None
    }

    /// Adds a subscriber and gives its identifier; `None` where no identifier is left.
    pub fn subscribe(&mut self) -> (id: Option<u64>)
        requires
            old(self).wf(),
        ensures
            final(self).wf(),
            id is None ==> old(self)@.next_id == u64::MAX && final(self)@ == old(self)@,
            id matches Some(new) ==> new == old(self)@.next_id && final(self)@ == subscribed(
                old(self)@,
            ) && final(self)@.pending_of(new) == Some(Seq::<BroadcastMessageView>::empty()),
    {
        if self.next_id == u64::MAX {
            return None;
        }
        let id = self.next_id;
        let ghost before = self@;
        let pending: Vec<BroadcastMessage> = Vec::new();
        assert(pending.deep_view() =~= Seq::<BroadcastMessageView>::empty());
        self.subscribers.push(Subscriber { id, pending });
        self.next_id = id + 1;
        proof {
            assert(self@.subscribers =~= before.subscribers.push(
                SubscriberView { id, pending: Seq::empty() },
            ));
            let wanted = is_subscriber(id);
            let last = before.subscribers.len() as int;
            assert forall|j: int| 0 <= j < last implies !wanted(#[trigger] self@.subscribers[j]) by {
                assert(before.subscribers[j].id < before.next_id);
            }
            assert(is_first_where(self@.subscribers, wanted, last));
            lemma_first_where_found(self@.subscribers, wanted, last);
            assert forall|i: int, j: int| 0 <= i < j < self@.subscribers.len() implies (
            #[trigger] self@.subscribers[i]).id != (#[trigger] self@.subscribers[j]).id by {
                assert(before.subscribers[i].id < before.next_id);
                if j < last {
                    assert(before.subscribers[i].id != before.subscribers[j].id);
                }
            }
            assert forall|i: int| 0 <= i < self@.subscribers.len() implies (
            #[trigger] self@.subscribers[i]).id < self@.next_id
                && self@.subscribers[i].pending.len() <= CAPACITY by {
                if i < last {
                    assert(before.subscribers[i].id < before.next_id);
                }
            }
        }
        Some(id)
    }

    /// Removes a subscriber; an identifier that no subscriber has changes nothing.
    pub fn unsubscribe(&mut self, id: u64)
        requires
            old(self).wf(),
        ensures
            final(self).wf(),
            final(self)@ == match first_where(old(self)@.subscribers, is_subscriber(id)) {
                Some(at) => unsubscribed(old(self)@, at),
                None => old(self)@,
            },
    {
        match self.find(id) {
            None => {},
            Some(at) => {
                let ghost before = self@;
                self.subscribers.remove(at);
                proof {
                    assert(self@.subscribers =~= before.subscribers.remove(at as int));
                    assert forall|i: int| 0 <= i < self@.subscribers.len() implies (
                    #[trigger] self@.subscribers[i]).id < self@.next_id
                        && self@.subscribers[i].pending.len() <= CAPACITY by {
                        if i < at {
                            assert(before.subscribers[i].id < before.next_id);
                        } else {
                            assert(before.subscribers[i + 1].id < before.next_id);
                        }
                    }
                    assert forall|i: int, j: int| 0 <= i < j < self@.subscribers.len() implies (
                    #[trigger] self@.subscribers[i]).id != (#[trigger] self@.subscribers[j]).id by {
                        let a = if i < at {
                            i
                        } else {
                            i + 1
                        };
                        let b = if j < at {
                            j
                        } else {
                            j + 1
                        };
                        assert(before.subscribers[a].id != before.subscribers[b].id);
                    }
                }
            },
        }
    }

    /// Publishes an announcement: it waits for every subscriber from now on. Publishing
    /// never fails; a subscriber for whom as many announcements wait as the hub keeps loses
    /// the oldest of them.
    pub fn publish(&mut self, message: &BroadcastMessage)
        requires
            old(self).wf(),
        ensures
            final(self).wf(),
            final(self)@ == published(old(self)@, message@),
    {
        let ghost before = self@;
        let mut i: usize = 0;
        while i < self.subscribers.len()
            invariant
                i <= self.subscribers@.len(),
                self@.next_id == before.next_id,
                self@.subscribers.len() == before.subscribers.len(),
                before.wf(),
                forall|k: int|
                    0 <= k < i ==> #[trigger] self@.subscribers[k] == (SubscriberView {
                        id: before.subscribers[k].id,
                        pending: kept(before.subscribers[k].pending, message@),
                    }),
                forall|k: int|
                    i <= k < self@.subscribers.len() ==> #[trigger] self@.subscribers[k]
                        == before.subscribers[k],
            decreases self.subscribers@.len() - i,
        {
            let ghost now = self@;
            assert(now.subscribers[i as int] == before.subscribers[i as int]);
            assert(now.subscribers[i as int] == self.subscribers@[i as int]@);
            let mut subscriber = self.subscribers.remove(i);
            let ghost waiting = subscriber.pending.deep_view();
            assert(subscriber@ == before.subscribers[i as int]);
            assert(waiting.len() <= CAPACITY);
            if subscriber.pending.len() >= CAPACITY {
                subscriber.pending.remove(0);
                assert(subscriber.pending.deep_view() =~= waiting.skip(1));
            }
            let ghost shortened = subscriber.pending.deep_view();
            subscriber.pending.push(message.clone());
            assert(subscriber.pending.deep_view() =~= shortened.push(message@));
            assert(subscriber.pending.deep_view() =~= kept(waiting, message@));
            self.subscribers.insert(i, subscriber);
            proof {
                assert(self@.subscribers =~= now.subscribers.update(
                    i as int,
                    SubscriberView {
                        id: before.subscribers[i as int].id,
                        pending: kept(waiting, message@),
                    },
                ));
            }
            i = i + 1;
        }
        proof {
            assert(self@.subscribers =~= published(before, message@).subscribers);
            assert forall|a: int, b: int| 0 <= a < b < self@.subscribers.len() implies (
            #[trigger] self@.subscribers[a]).id != (#[trigger] self@.subscribers[b]).id by {
                assert(before.subscribers[a].id != before.subscribers[b].id);
            }
            assert forall|a: int| 0 <= a < self@.subscribers.len() implies (
            #[trigger] self@.subscribers[a]).id < self@.next_id
                && self@.subscribers[a].pending.len() <= CAPACITY by {
                assert(before.subscribers[a].id < before.next_id);
            }
        }
    }

    /// Takes the oldest announcement that waits for a subscriber. Nothing is taken where
    /// nothing waits, or no subscriber has the identifier.
    pub fn receive(&mut self, id: u64) -> (message: Option<BroadcastMessage>)
        requires
            old(self).wf(),
        ensures
            final(self).wf(),
            match first_where(old(self)@.subscribers, is_subscriber(id)) {
                Some(at) => if old(self)@.subscribers[at].pending.len() > 0 {
                    message.deep_view() == Some(old(self)@.subscribers[at].pending[0])
                        && final(self)@ == taken(old(self)@, at)
                } else {
                    message is None && final(self)@ == old(self)@
                },
                None => message is None && final(self)@ == old(self)@,
            },
    {
        let at = match self.find(id) {
            Some(at) => at,
            None => {
                return None;
            },
        };
        if self.subscribers[at].pending.len() == 0 {
            return None;
        }
        let ghost before = self@;
        assert(before.subscribers[at as int] == self.subscribers@[at as int]@);
        let mut subscriber = self.subscribers.remove(at);
        let ghost waiting = subscriber.pending.deep_view();
        assert(subscriber@ == before.subscribers[at as int]);
        let message = subscriber.pending.remove(0);
        assert(subscriber.pending.deep_view() =~= waiting.skip(1));
        self.subscribers.insert(at, subscriber);
        proof {
            assert(self@.subscribers =~= before.subscribers.update(
                at as int,
                SubscriberView { id: before.subscribers[at as int].id, pending: waiting.skip(1) },
            ));
            assert forall|a: int, b: int| 0 <= a < b < self@.subscribers.len() implies (
            #[trigger] self@.subscribers[a]).id != (#[trigger] self@.subscribers[b]).id by {
                assert(before.subscribers[a].id != before.subscribers[b].id);
            }
            assert forall|a: int| 0 <= a < self@.subscribers.len() implies (
            #[trigger] self@.subscribers[a]).id < self@.next_id
                && self@.subscribers[a].pending.len() <= CAPACITY by {
                assert(before.subscribers[a].id < before.next_id);
                assert(before.subscribers[a].pending.len() <= CAPACITY);
            }
        }
        Some(message)
    }
}

/// Publishes an announcement on the hub.
pub fn ws_broadcast(message: &BroadcastMessage, hub: &mut Hub)
    requires
        old(hub).wf(),
    ensures
        final(hub).wf(),
        final(hub)@ == published(old(hub)@, message@),
{
    hub.publish(message)
}

/// Fan-out. Two subscribers for whom the same announcements wait, as two who have just
/// subscribed, are owed the same announcements in the same order after any number of others
/// are published.
pub proof fn lemma_fan_out(
    hub: HubView,
    messages: Seq<BroadcastMessageView>,
    count: int,
    a: int,
    b: int,
)
    requires
        0 <= a < hub.subscribers.len(),
        0 <= b < hub.subscribers.len(),
        hub.subscribers[a].pending == hub.subscribers[b].pending,
        0 <= count <= messages.len(),
    ensures
        published_all(hub, messages, count).subscribers.len() == hub.subscribers.len(),
        published_all(hub, messages, count).subscribers[a].pending == published_all(
            hub,
            messages,
            count,
        ).subscribers[b].pending,
        published_all(hub, messages, count).subscribers[a].id == hub.subscribers[a].id,
    decreases count,
{
    if count > 0 {
        lemma_fan_out(hub, messages, count - 1, a, b);
    }
}

/// Fan-out, in full: a subscriber for whom nothing waits is owed, after at most as many
/// announcements as the hub keeps, exactly these announcements in the order in which they
/// were published.
pub proof fn lemma_fan_out_in_order(
    hub: HubView,
    messages: Seq<BroadcastMessageView>,
    count: int,
    a: int,
)
    requires
        0 <= a < hub.subscribers.len(),
        hub.subscribers[a].pending.len() == 0,
        0 <= count <= messages.len(),
        count <= CAPACITY,
    ensures
        published_all(hub, messages, count).subscribers.len() == hub.subscribers.len(),
        published_all(hub, messages, count).subscribers[a].pending == messages.take(count),
    decreases count,
{
    if count > 0 {
        lemma_fan_out_in_order(hub, messages, count - 1, a);
        assert(messages.take(count - 1).push(messages[count - 1]) =~= messages.take(count));
    } else {
        assert(hub.subscribers[a].pending =~= messages.take(0));
    }
}

} // verus!
