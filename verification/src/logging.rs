//! The log: its latest entries, and their shipment to a remote collector.

use vstd::prelude::*;
use vstd::string::*;

use crate::text;
use crate::text::non_blank;

verus! {

// ── Local log ──────────────────────────────────────────────────────────

/// How many entries are kept.
pub const LOG_CAPACITY: usize = 500;

/// The last `n` of some items, or all of them where there are fewer.
pub open spec fn latest<T>(items: Seq<T>, n: nat) -> Seq<T> {
    if items.len() <= n {
        items
    } else {
        items.skip(items.len() - n)
    }
}

/// The latest entries of the log.
pub struct LogBuffer {
    pub entries: Vec<String>,
}

impl View for LogBuffer {
    type V = Seq<Seq<char>>;

    open spec fn view(&self) -> Seq<Seq<char>> {
        text::texts(self.entries@)
    }
}

impl LogBuffer {
    /// No more entries than are kept.
    pub open spec fn wf(self) -> bool {
        self@.len() <= LOG_CAPACITY
    }

    /// An empty log.
    pub fn new() -> (res: LogBuffer)
        ensures
            res.wf(),
            res@ == Seq::<Seq<char>>::empty(),
    {
        LogBuffer { entries: Vec::new() }
    }
}

/// A message as it stands in the log.
pub open spec fn log_entry(timestamp: Seq<char>, message: Seq<char>) -> Seq<char> {
    "["@ + timestamp + "] "@ + message
}

/// Adds a message to the log, drops the oldest entry where there are too many, and hands out the new
/// entry.
pub fn push_log(buffer: &mut LogBuffer, timestamp: &str, message: &str) -> (res: String)
    requires
        old(buffer).wf(),
    ensures
        res@ == log_entry(timestamp@, message@),
        final(buffer).wf(),
        final(buffer)@ == latest(old(buffer)@.push(res@), LOG_CAPACITY as nat),
{
    let mut entry = "[".to_owned();
    entry.append(timestamp);
    entry.append("] ");
    entry.append(message);
    buffer.entries.push(entry.clone());
    if buffer.entries.len() > LOG_CAPACITY {
        buffer.entries.remove(0);
    }
    proof {
        assert(buffer@ =~= latest(old(buffer)@.push(entry@), LOG_CAPACITY as nat));
    }
    entry
}

/// The entries of the log, oldest first.
pub fn get_logs(buffer: &LogBuffer) -> (res: Vec<String>)
    ensures
        text::texts(res@) == buffer@,
{
    let mut res: Vec<String> = Vec::new();
    let mut i: usize = 0;
    while i < buffer.entries.len()
        invariant
            i <= buffer.entries@.len(),
            res@.len() == i,
            forall|j: int| 0 <= j < i ==> (#[trigger] res@[j])@ == buffer.entries@[j]@,
        decreases buffer.entries@.len() - i,
    {
        res.push(buffer.entries[i].clone());
        i += 1;
    }
    proof {
        assert(text::texts(res@) =~= buffer@);
    }
    res
}

/// A log that holds the latest `n` of all entries so far holds the latest `n` of them all after one
/// more.
pub proof fn law_log_holds_the_latest(history: Seq<Seq<char>>, entry: Seq<char>, n: nat)
    ensures
        latest(latest(history, n).push(entry), n) == latest(history.push(entry), n),
        latest(Seq::<Seq<char>>::empty(), n) == Seq::<Seq<char>>::empty(),
{
    assert(latest(latest(history, n).push(entry), n) =~= latest(history.push(entry), n));
}

// ── Remote collector ───────────────────────────────────────────────────

/// Where log entries are shipped to.
pub struct RemoteConfig {
    pub ingest_url: String,
    pub ingest_token: String,
    pub environment: String,
}

/// The remote collector that the build names. There is one only where both its address and its token
/// are given; the environment is `dev` where none is.
pub fn remote_config(
    ingest_url: Option<&str>,
    ingest_token: Option<&str>,
    environment: Option<&str>,
) -> (res: Option<RemoteConfig>)
    ensures
        match (
            text::substance(text::opt_str(ingest_url)),
            text::substance(text::opt_str(ingest_token)),
        ) {
            (Some(url), Some(token)) => res matches Some(config) && config.ingest_url@ == url
                && config.ingest_token@ == token && config.environment@ == (
            match text::substance(text::opt_str(environment)) {
                Some(environment) => environment,
                None => "dev"@,
            }),
            _ => res is None,
        },
{
    match (non_blank(ingest_url), non_blank(ingest_token)) {
        (Some(ingest_url), Some(ingest_token)) => {
            let environment = match non_blank(environment) {
                Some(environment) => environment,
                None => "dev".to_owned(),
            };
            Some(RemoteConfig { ingest_url, ingest_token, environment })
        },
        _ => None,
    }
}

/// A log entry on its way to the collector.
pub struct RemoteEvent {
    pub timestamp: String,
    pub message: String,
}

/// The content of a log entry on its way to the collector.
pub struct EventView {
    pub timestamp: Seq<char>,
    pub message: Seq<char>,
}

impl View for RemoteEvent {
    type V = EventView;

    open spec fn view(&self) -> EventView {
        EventView { timestamp: self.timestamp@, message: self.message@ }
    }
}

/// How many entries one shipment holds at most.
pub const REMOTE_BATCH_SIZE: usize = 100;

/// How many seconds the shipper waits for an entry.
pub const REMOTE_FLUSH_SECS: u64 = 5;

/// What the shipper finds in its queue.
pub enum Inbox {
    Event(RemoteEvent),
    Empty,
    /// The queue is empty, and no more entries will come.
    Closed,
}

/// The content of what the shipper finds in its queue.
pub enum InboxView {
    Event(EventView),
    Empty,
    Closed,
}

impl View for Inbox {
    type V = InboxView;

    open spec fn view(&self) -> InboxView {
        match self {
            Inbox::Event(e) => InboxView::Event(e@),
            Inbox::Empty => InboxView::Empty,
            Inbox::Closed => InboxView::Closed,
        }
    }
}

/// What the shipper does next.
#[derive(Debug, Clone, Copy, PartialEq, Eq, Structural)]
pub enum ShipperStep {
    /// Wait for an entry.
    Wait,
    /// Take an entry if there is one already.
    Poll,
    /// Send what is pending.
    Send,
    Stop,
}

/// What is pending after a look into the queue.
pub open spec fn pending_after(pending: Seq<EventView>, inbox: InboxView) -> Seq<EventView> {
    match inbox {
        InboxView::Event(e) => pending.push(e),
        _ => pending,
    }
}

/// What the shipper does after a look into the queue: it gathers entries while there are any and the
/// shipment is not full, then sends them, and stops when it has nothing to send and nothing will
/// come.
pub open spec fn step_after(pending: Seq<EventView>, inbox: InboxView) -> ShipperStep {
    match inbox {
        InboxView::Event(_) => if pending.len() + 1 < REMOTE_BATCH_SIZE {
            ShipperStep::Poll
        } else {
            ShipperStep::Send
        },
        InboxView::Empty => if pending.len() == 0 {
            ShipperStep::Wait
        } else {
            ShipperStep::Send
        },
        InboxView::Closed => if pending.len() == 0 {
            ShipperStep::Stop
        } else {
            ShipperStep::Send
        },
    }
}

/// The content of some entries.
pub open spec fn events(v: Seq<RemoteEvent>) -> Seq<EventView> {
    v.map_values(|e: RemoteEvent| e@)
}

/// Gathers log entries into shipments.
pub struct Shipper {
    pub pending: Vec<RemoteEvent>,
}

impl View for Shipper {
    type V = Seq<EventView>;

    open spec fn view(&self) -> Seq<EventView> {
        events(self.pending@)
    }
}

impl Shipper {
    /// There is room for another entry.
    pub open spec fn wf(self) -> bool {
        self@.len() < REMOTE_BATCH_SIZE
    }

    /// A shipper with nothing pending.
    pub fn new() -> (res: Shipper)
        ensures
            res.wf(),
            res@ == Seq::<EventView>::empty(),
    {
        let res = Shipper { pending: Vec::new() };
        assert(res@ =~= Seq::<EventView>::empty());
        res
    }

    /// Takes in what was found in the queue, and tells what to do next. What is pending can only be
    /// full when it is to be sent.
    pub fn take_in(&mut self, inbox: Inbox) -> (res: ShipperStep)
        requires
            old(self).wf(),
        ensures
            final(self)@ == pending_after(old(self)@, inbox@),
            res == step_after(old(self)@, inbox@),
            res == ShipperStep::Send ==> 0 < final(self)@.len() <= REMOTE_BATCH_SIZE,
            res != ShipperStep::Send ==> final(self).wf(),
    {
        match inbox {
            Inbox::Event(event) => {
                let ghost e = event@;
                self.pending.push(event);
                assert(self@ =~= old(self)@.push(e));
                if self.pending.len() < REMOTE_BATCH_SIZE {
                    ShipperStep::Poll
                } else {
                    ShipperStep::Send
                }
            },
            Inbox::Empty => if self.pending.len() == 0 {
                ShipperStep::Wait
            } else {
                ShipperStep::Send
            },
            Inbox::Closed => if self.pending.len() == 0 {
                ShipperStep::Stop
            } else {
                ShipperStep::Send
            },
        }
    }

    /// Hands out what is pending, after which nothing is.
    pub fn take_batch(&mut self) -> (res: Vec<RemoteEvent>)
        ensures
            res@ == old(self).pending@,
            events(res@) == old(self)@,
            final(self)@ == Seq::<EventView>::empty(),
            final(self).wf(),
    {
        let mut batch: Vec<RemoteEvent> = Vec::new();
        batch.append(&mut self.pending);
        assert(batch@ =~= old(self).pending@);
        assert(self@ =~= Seq::<EventView>::empty());
        batch
    }
}

/// What has been sent, and what is pending.
pub struct Shipment {
    pub sent: Seq<Seq<EventView>>,
    pub pending: Seq<EventView>,
}

/// What has been sent and what is pending after some looks into the queue.
pub open spec fn shipment(inboxes: Seq<InboxView>) -> Shipment
    decreases inboxes.len(),
{
    if inboxes.len() == 0 {
        Shipment { sent: Seq::empty(), pending: Seq::empty() }
    } else {
        let before = shipment(inboxes.drop_last());
        let pending = pending_after(before.pending, inboxes.last());
        if step_after(before.pending, inboxes.last()) == ShipperStep::Send {
            Shipment { sent: before.sent.push(pending), pending: Seq::empty() }
        } else {
            Shipment { sent: before.sent, pending }
        }
    }
}

/// The entries that came in some looks into the queue.
pub open spec fn received(inboxes: Seq<InboxView>) -> Seq<EventView>
    decreases inboxes.len(),
{
    if inboxes.len() == 0 {
        Seq::empty()
    } else {
        let before = received(inboxes.drop_last());
        match inboxes.last() {
            InboxView::Event(e) => before.push(e),
            _ => before,
        }
    }
}

/// The entries of some shipments, one shipment after the other.
pub open spec fn all_of(sent: Seq<Seq<EventView>>) -> Seq<EventView>
    decreases sent.len(),
{
    if sent.len() == 0 {
        Seq::empty()
    } else {
        all_of(sent.drop_last()) + sent.last()
    }
}

/// The shipper neither loses, repeats nor reorders an entry: what has been sent and what is pending
/// are the entries that came in, and no shipment is empty or too large. It stops with nothing
/// pending.
pub proof fn law_shipper_loses_nothing(inboxes: Seq<InboxView>)
    ensures
        all_of(shipment(inboxes).sent) + shipment(inboxes).pending == received(inboxes),
        shipment(inboxes).pending.len() < REMOTE_BATCH_SIZE,
        forall|i: int|
            0 <= i < shipment(inboxes).sent.len() ==> 0 < (
            #[trigger] shipment(inboxes).sent[i]).len() <= REMOTE_BATCH_SIZE,
        inboxes.len() > 0 && step_after(shipment(inboxes.drop_last()).pending, inboxes.last())
            == ShipperStep::Stop ==> all_of(shipment(inboxes).sent) == received(inboxes),
    decreases inboxes.len(),
{
    if inboxes.len() > 0 {
        let init = inboxes.drop_last();
        law_shipper_loses_nothing(init);
        let before = shipment(init);
        let after = shipment(inboxes);
        let pending = pending_after(before.pending, inboxes.last());
        assert(all_of(before.sent) + pending =~= received(inboxes));
        if step_after(before.pending, inboxes.last()) == ShipperStep::Send {
            assert(after.sent.drop_last() =~= before.sent);
            assert(all_of(after.sent) + after.pending =~= all_of(before.sent) + pending);
            assert forall|i: int| 0 <= i < after.sent.len() implies 0 < (
            #[trigger] after.sent[i]).len() <= REMOTE_BATCH_SIZE by {
                if i < before.sent.len() {
                    assert(after.sent[i] == before.sent[i]);
                }
            }
        } else {
            assert(pending.len() == 0 ==> all_of(after.sent) =~= received(inboxes));
        }
    } else {
        assert(all_of(shipment(inboxes).sent) + shipment(inboxes).pending =~= received(inboxes));
    }
}

/// The application and the system that entries are attributed to.
pub const SYSTEM_NAME: &'static str = "anna";

/// The part of the application that entries come from.
pub const SOURCE_NAME: &'static str = "desktop-app";

pub struct HumioAttributes {
    pub app: String,
    pub source: String,
    pub message: String,
}

pub struct HumioEvent {
    pub timestamp: String,
    pub attributes: HumioAttributes,
    pub rawstring: String,
}

pub struct HumioTags {
    pub system: String,
    pub environment: String,
}

/// A shipment as the collector takes it.
pub struct HumioBatch {
    pub tags: HumioTags,
    pub events: Vec<HumioEvent>,
}

/// Whether `sent` is how the collector takes the entry `event`.
pub open spec fn carries(sent: HumioEvent, event: EventView) -> bool {
    &&& sent.timestamp@ == event.timestamp
    &&& sent.rawstring@ == event.message
    &&& sent.attributes.message@ == event.message
    &&& sent.attributes.app@ == SYSTEM_NAME@
    &&& sent.attributes.source@ == SOURCE_NAME@
}

/// Some entries as the collector takes them.
pub fn humio_batch(environment: &str, pending: &[RemoteEvent]) -> (res: HumioBatch)
    ensures
        res.tags.system@ == SYSTEM_NAME@,
        res.tags.environment@ == environment@,
        res.events@.len() == pending@.len(),
        forall|i: int| 0 <= i < pending@.len() ==> carries(#[trigger] res.events@[i], pending@[i]@),
{
    let mut batch: Vec<HumioEvent> = Vec::new();
    let mut i: usize = 0;
    while i < pending.len()
        invariant
            i <= pending@.len(),
            batch@.len() == i,
            forall|j: int| 0 <= j < i ==> carries(#[trigger] batch@[j], pending@[j]@),
        decreases pending@.len() - i,
    {
        let event = &pending[i];
        batch.push(
            HumioEvent {
                timestamp: event.timestamp.clone(),
                rawstring: event.message.clone(),
                attributes: HumioAttributes {
                    app: SYSTEM_NAME.to_owned(),
                    source: SOURCE_NAME.to_owned(),
                    message: event.message.clone(),
                },
            },
        );
        i += 1;
    }
    HumioBatch {
        tags: HumioTags { system: SYSTEM_NAME.to_owned(), environment: environment.to_owned() },
        events: batch,
    }
}

/// Whether the collector took a shipment, from the status of its answer and the body.
pub fn batch_result(success: bool, status: &str, body: &str) -> (res: Result<(), String>)
    ensures
        match res {
            Ok(()) => success,
            Err(e) => !success && e@ == "HTTP "@ + status@ + ": "@ + body@,
        },
{
    if success {
        return Ok(());
    }
    let mut message = "HTTP ".to_owned();
    message.append(status);
    message.append(": ");
    message.append(body);
    Err(message)
}

// ── Laws ───────────────────────────────────────────────────────────────

/// A message goes into the log with its time before it, behind all that was there; only the oldest entry
/// may leave, and does where there would be more than are kept.
pub proof fn law_push_log(
    buffer: &mut LogBuffer,
    timestamp: &str,
    message: &str,
    res: String,
)
    requires
        old(buffer).wf(),
        call_ensures(push_log, (buffer, timestamp, message), res),
    ensures
        res@ == "["@ + timestamp@ + "] "@ + message@,
        final(buffer)@.last() == res@,
        old(buffer)@.len() < LOG_CAPACITY ==> final(buffer)@.len() == old(buffer)@.len() + 1,
        old(buffer)@.len() == LOG_CAPACITY ==> final(buffer)@.len() == LOG_CAPACITY,
        ({
            let kept = final(buffer)@.drop_last();
            kept == old(buffer)@.skip(old(buffer)@.len() - kept.len())
        }),
{
    let kept = final(buffer)@.drop_last();
    assert(kept =~= old(buffer)@.skip(old(buffer)@.len() - kept.len()));
}

/// The latest of some items are the last of them, as many as there are up to the number asked for.
pub proof fn law_latest(items: Seq<Seq<char>>, n: nat)
    ensures
        latest(items, n).len() == (if items.len() <= n {
            items.len()
        } else {
            n
        }),
        latest(items, n) == items.skip(items.len() - latest(items, n).len()),
{
    assert(latest(items, n) =~= items.skip(items.len() - latest(items, n).len()));
}

/// What came in is sent as soon as nothing more is there: when the queue is found empty or closed, nothing
/// is left pending. Before that, entries are gathered until a shipment is full. The shipper stops exactly
/// when the queue is closed and nothing is left to send.
pub proof fn law_shipper_sends_in_time(inboxes: Seq<InboxView>)
    requires
        inboxes.len() > 0,
    ensures
        ({
            let before = shipment(inboxes.drop_last());
            let after = shipment(inboxes);
            let step = step_after(before.pending, inboxes.last());
            &&& inboxes.last() is Empty || inboxes.last() is Closed ==> after.pending.len() == 0
                && all_of(after.sent) == received(inboxes)
            &&& inboxes.last() is Event && before.pending.len() + 1 < REMOTE_BATCH_SIZE
                ==> after.sent == before.sent && step == ShipperStep::Poll
            &&& inboxes.last() is Event && before.pending.len() + 1 == REMOTE_BATCH_SIZE
                ==> after.sent.len() == before.sent.len() + 1
            &&& step == ShipperStep::Stop <==> inboxes.last() is Closed && before.pending.len() == 0
            &&& step == ShipperStep::Wait <==> inboxes.last() is Empty && before.pending.len() == 0
        }),
{
    law_shipper_loses_nothing(inboxes);
    let after = shipment(inboxes);
    if after.pending.len() == 0 {
        assert(all_of(after.sent) + after.pending =~= all_of(after.sent));
    }
}

/// The shipper keeps what it is given, behind what it has, until that is handed out as a batch.
pub proof fn law_shipper_takes_in(
    shipper: &mut Shipper,
    event: RemoteEvent,
    step: ShipperStep,
    full: &mut Shipper,
    batch: Vec<RemoteEvent>,
)
    requires
        old(shipper).wf(),
        call_ensures(Shipper::take_in, (shipper, Inbox::Event(event)), step),
        *old(full) == *final(shipper),
        call_ensures(Shipper::take_batch, (full,), batch),
    ensures
        step == ShipperStep::Poll || step == ShipperStep::Send,
        step == ShipperStep::Send <==> old(shipper)@.len() + 1 == REMOTE_BATCH_SIZE,
        events(batch@) == old(shipper)@.push(event@),
        final(full)@.len() == 0,
{
}

/// There is a remote collector exactly where both its address and its token are more than white space.
pub proof fn law_remote_config(
    ingest_url: Option<&str>,
    ingest_token: Option<&str>,
    environment: Option<&str>,
    res: Option<RemoteConfig>,
)
    requires
        call_ensures(remote_config, (ingest_url, ingest_token, environment), res),
    ensures
        res is Some <==> ingest_url is Some && (exists|i: int|
            0 <= i < ingest_url->0@.len() && !text::is_white_space(#[trigger] ingest_url->0@[i]))
            && ingest_token is Some && (exists|i: int|
            0 <= i < ingest_token->0@.len() && !text::is_white_space(
                #[trigger] ingest_token->0@[i],
            )),
        res matches Some(c) ==> c.ingest_url@ == text::stripped(ingest_url->0@)
            && c.ingest_token@ == text::stripped(ingest_token->0@) && c.environment@.len() > 0,
        res matches Some(c) ==> (environment is None ==> c.environment@ == "dev"@),
        res matches Some(c) ==> (environment is Some && text::stripped(environment->0@).len() > 0
            ==> c.environment@ == text::stripped(environment->0@)),
{
    reveal_strlit("dev");
    text::law_substance(match ingest_url {
        Some(t) => t@,
        None => Seq::empty(),
    });
    text::law_substance(match ingest_token {
        Some(t) => t@,
        None => Seq::empty(),
    });
}

/// A batch carries each entry once, in order, with its message and its time as they are.
pub proof fn law_batch_carries_the_entries(
    environment: &str,
    pending: &[RemoteEvent],
    res: HumioBatch,
)
    requires
        call_ensures(humio_batch, (environment, pending), res),
    ensures
        res.events@.len() == pending@.len(),
        forall|i: int|
            0 <= i < pending@.len() ==> (#[trigger] res.events@[i]).timestamp@
                == pending@[i].timestamp@ && res.events@[i].rawstring@ == pending@[i].message@
                && res.events@[i].attributes.message@ == pending@[i].message@,
        res.tags.environment@ == environment@,
{
    assert forall|i: int| 0 <= i < pending@.len() implies (#[trigger] res.events@[i]).timestamp@
        == pending@[i].timestamp@ && res.events@[i].rawstring@ == pending@[i].message@
        && res.events@[i].attributes.message@ == pending@[i].message@ by {
        assert(carries(res.events@[i], pending@[i]@));
    }
}

/// A shipment went well exactly where the collector says so; else the error tells what it said.
pub proof fn law_batch_result(success: bool, status: &str, body: &str, res: Result<(), String>)
    requires
        call_ensures(batch_result, (success, status, body), res),
    ensures
        res is Ok <==> success,
        res matches Err(e) ==> text::occurs(e@, status@ + ": "@ + body@),
{
    if !success {
        let told = status@ + ": "@ + body@;
        let none = Seq::<char>::empty();
        assert(res->Err_0@ =~= "HTTP "@ + told + none);
        text::law_occurs_between("HTTP "@, told, none);
    }
}

/// What is read of the log is all that it holds, the newest entry last.
pub proof fn law_logs(
    buffer: &mut LogBuffer,
    timestamp: &str,
    message: &str,
    entry: String,
    after: &LogBuffer,
    logs: Vec<String>,
)
    requires
        old(buffer).wf(),
        call_ensures(push_log, (buffer, timestamp, message), entry),
        *after == *final(buffer),
        call_ensures(get_logs, (after,), logs),
    ensures
        logs@.len() == after.entries@.len(),
        logs@.len() > 0 && logs@.last()@ == entry@,
        forall|i: int| 0 <= i < logs@.len() ==> (#[trigger] logs@[i])@ == after.entries@[i]@,
{
    law_push_log(buffer, timestamp, message, entry);
    let t = text::texts(logs@);
    let u = text::texts(after.entries@);
    assert(t.len() == logs@.len() && u.len() == after.entries@.len());
    assert(t.len() > 0);
    assert(t.last() == logs@.last()@);
    assert forall|i: int| 0 <= i < logs@.len() implies (#[trigger] logs@[i])@
        == after.entries@[i]@ by {
        assert(t[i] == logs@[i]@ && u[i] == after.entries@[i]@);
    }
}

} // verus!
