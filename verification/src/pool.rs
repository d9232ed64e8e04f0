//! The registry of live links and the two steps of a relay cycle that work on
//! it: gathering what a poll brought, and planning the fan-out of it.

use std::collections::HashMap;
use vstd::prelude::*;
use vstd::std_specs::hash::*;
use vstd::std_specs::iter::IteratorSpec;

use crate::tcp::{line_read, write_result, Setting, TcpStreamWrapper, TransportFault};

verus! {

/// What one poll of one link came back with.
#[derive(Debug)]
pub struct Reading {
    /// The identity of the link that was read.
    pub id: u64,
    /// The text the transport handed over, or the fault it reported.
    pub outcome: Result<String, TransportFault>,
}

impl Reading {
    /// The line this reading contributes to a poll: the line the link's read
    /// yields, and nothing where that read fails.
    pub open spec fn line(&self) -> Seq<char> {
        let outcome = match self.outcome {
            Ok(text) => Ok(text@),
            Err(fault) => Err(fault),
        };
        match line_read(outcome) {
            Ok(line) => line,
            Err(_) => Seq::empty(),
        }
    }
}

/// Reading `i` brought a line from the link `id`.
pub open spec fn speaks(reads: Seq<Reading>, i: int, id: u64) -> bool {
    &&& 0 <= i < reads.len()
    &&& reads[i].id == id
    &&& reads[i].line().len() > 0
}

/// Reading `i` is the last one that brought a line from the link `id`.
pub open spec fn speaks_last(reads: Seq<Reading>, i: int, id: u64) -> bool {
    &&& speaks(reads, i, id)
    &&& forall|j: int| i < j < reads.len() ==> !speaks(reads, j, id)
}

/// The batch a poll yields: one line for each link on file that a reading
/// brought a line from, and where several did, the line of the last.
pub open spec fn batch_of(registered: Set<u64>, reads: Seq<Reading>) -> Map<u64, Seq<char>> {
    Map::new(
        |id: u64| registered.contains(id) && exists|i: int| speaks(reads, i, id),
        |id: u64| reads[choose|i: int| speaks_last(reads, i, id)].line(),
    )
}

/// A batch as a map from sender to the characters of its line.
pub open spec fn batch_view(batch: Map<u64, String>) -> Map<u64, Seq<char>> {
    batch.map_values(|line: String| line@)
}

/// Among the readings that brought a line from a link there is a last one.
proof fn lemma_speaks_last_exists(reads: Seq<Reading>, i: int, id: u64)
    requires
        speaks(reads, i, id),
    ensures
        exists|k: int| speaks_last(reads, k, id),
    decreases reads.len() - i,
{
    if exists|j: int| i < j < reads.len() && speaks(reads, j, id) {
        let j = choose|j: int| i < j < reads.len() && speaks(reads, j, id);
        lemma_speaks_last_exists(reads, j, id);
    } else {
        assert(speaks_last(reads, i, id));
    }
}

/// One more reading changes a batch in one place at most: a line from a link
/// on file replaces what the batch held for that link.
proof fn lemma_batch_push(registered: Set<u64>, reads: Seq<Reading>, next: Reading)
    ensures
        batch_of(registered, reads.push(next)) == if registered.contains(next.id)
            && next.line().len() > 0 {
            batch_of(registered, reads).insert(next.id, next.line())
        } else {
            batch_of(registered, reads)
        },
{
    let more = reads.push(next);
    let n = reads.len() as int;
    let taken = registered.contains(next.id) && next.line().len() > 0;
    let expected = if taken {
        batch_of(registered, reads).insert(next.id, next.line())
    } else {
        batch_of(registered, reads)
    };
    assert forall|i: int, id: u64| 0 <= i < n implies speaks(more, i, id) == speaks(
        reads,
        i,
        id,
    ) by {
        assert(more[i] == reads[i]);
    }
    assert(more[n] == next);
    assert forall|id: u64| #[trigger]
        batch_of(registered, more).contains_key(id) == expected.contains_key(id) by {
        if registered.contains(id) {
            if exists|i: int| speaks(more, i, id) {
                let i = choose|i: int| speaks(more, i, id);
                if i < n {
                    assert(speaks(reads, i, id));
                }
            }
            if exists|i: int| speaks(reads, i, id) {
                let i = choose|i: int| speaks(reads, i, id);
                assert(speaks(more, i, id));
            }
            if taken && id == next.id {
                assert(speaks(more, n, id));
            }
        }
    }
    assert forall|id: u64| #[trigger]
        expected.contains_key(id) implies batch_of(registered, more)[id] == expected[id] by {
        assert(batch_of(registered, more).contains_key(id));
        let w = choose|i: int| speaks(more, i, id);
        lemma_speaks_last_exists(more, w, id);
        let k = choose|i: int| speaks_last(more, i, id);
        if speaks(more, n, id) {
            assert(k == n);
        } else {
            assert(k < n);
            assert(speaks(reads, k, id));
            assert forall|j: int| k < j < reads.len() implies !speaks(reads, j, id) by {
                assert(speaks(more, j, id) == speaks(reads, j, id));
            }
            assert(speaks_last(reads, k, id));
            let k0 = choose|i: int| speaks_last(reads, i, id);
            assert(k0 == k);
            assert(more[k] == reads[k]);
        }
    }
    assert(batch_of(registered, more) =~= expected);
}

/// One write the relay owes: `message`, which came from `sender`, goes to
/// `recipient`.
#[derive(Debug, PartialEq, Eq)]
pub struct Delivery {
    pub recipient: u64,
    pub sender: u64,
    pub message: String,
}

/// Entry `i` of `plan` carries the line of `sender` to `recipient`.
pub open spec fn delivers(plan: Seq<Delivery>, i: int, recipient: u64, sender: u64) -> bool {
    &&& 0 <= i < plan.len()
    &&& plan[i].recipient == recipient
    &&& plan[i].sender == sender
}

/// The relay owes the line of `sender` to `recipient`: the recipient is on
/// file, the sender has a line in the batch, and they are different links.
pub open spec fn owes(
    registered: Set<u64>,
    batch: Map<u64, Seq<char>>,
    recipient: u64,
    sender: u64,
) -> bool {
    &&& registered.contains(recipient)
    &&& batch.contains_key(sender)
    &&& recipient != sender
}

/// `plan` is the fan-out of `batch` over the links on file: it holds nothing
/// but owed deliveries, each with its sender's line, and every owed delivery
/// exactly once.
pub open spec fn is_fan_out(
    plan: Seq<Delivery>,
    registered: Set<u64>,
    batch: Map<u64, Seq<char>>,
) -> bool {
    &&& forall|i: int|
        0 <= i < plan.len() ==> owes(
            registered,
            batch,
            #[trigger] plan[i].recipient,
            plan[i].sender,
        ) && plan[i].message@ == batch[plan[i].sender]
    &&& forall|recipient: u64, sender: u64| #[trigger]
        owes(registered, batch, recipient, sender) ==> exists|i: int|
            delivers(plan, i, recipient, sender)
    &&& forall|i: int, j: int|
        0 <= i < j < plan.len() ==> !(#[trigger] plan[i].recipient == #[trigger] plan[j].recipient
            && plan[i].sender == plan[j].sender)
}

/// Position `(a, b)` in the walk over recipients and senders comes before
/// position `(r, s)`.
spec fn walked(a: int, b: int, r: int, s: int) -> bool {
    a < r || (a == r && b < s)
}

/// The walk over `recipients` and `senders` has reached position `(r, s)`,
/// and `plan` holds the deliveries of the positions before it: entry `i` came
/// from position `origin[i]`, and every position whose recipient differs from
/// its sender left an entry.
spec fn fans_out_so_far(
    plan: Seq<Delivery>,
    origin: Seq<(int, int)>,
    recipients: Seq<u64>,
    senders: Seq<u64>,
    batch: Map<u64, Seq<char>>,
    r: int,
    s: int,
) -> bool {
    &&& origin.len() == plan.len()
    &&& forall|i: int|
        0 <= i < plan.len() ==> {
            let (a, b) = #[trigger] origin[i];
            &&& 0 <= a < recipients.len()
            &&& 0 <= b < senders.len()
            &&& walked(a, b, r, s)
            &&& plan[i].recipient == recipients[a]
            &&& plan[i].sender == senders[b]
            &&& recipients[a] != senders[b]
            &&& plan[i].message@ == batch[senders[b]]
        }
    &&& forall|a: int, b: int|
        0 <= a < recipients.len() && 0 <= b < senders.len() && #[trigger] walked(a, b, r, s)
            && recipients[a] != senders[b] ==> exists|i: int|
            0 <= i < plan.len() && #[trigger] origin[i] == (a, b)
    &&& forall|i: int, j: int|
        0 <= i < j < plan.len() ==> #[trigger] origin[i] != #[trigger] origin[j]
}

/// A position whose recipient is its sender leaves no entry.
proof fn lemma_walk_skip(
    plan: Seq<Delivery>,
    origin: Seq<(int, int)>,
    recipients: Seq<u64>,
    senders: Seq<u64>,
    batch: Map<u64, Seq<char>>,
    r: int,
    s: int,
)
    requires
        0 <= r < recipients.len(),
        0 <= s < senders.len(),
        recipients[r] == senders[s],
        fans_out_so_far(plan, origin, recipients, senders, batch, r, s),
    ensures
        fans_out_so_far(plan, origin, recipients, senders, batch, r, s + 1),
{
    assert forall|i: int| 0 <= i < plan.len() implies walked(
        (#[trigger] origin[i]).0,
        origin[i].1,
        r,
        s + 1,
    ) by {
        assert(walked(origin[i].0, origin[i].1, r, s));
    }
    assert forall|a: int, b: int|
        0 <= a < recipients.len() && 0 <= b < senders.len() && #[trigger] walked(a, b, r, s + 1)
            && recipients[a] != senders[b] implies exists|i: int|
        0 <= i < plan.len() && #[trigger] origin[i] == (a, b) by {
        assert(walked(a, b, r, s));
    }
}

/// A position whose recipient differs from its sender leaves one entry, at
/// the end of the plan.
proof fn lemma_walk_push(
    plan: Seq<Delivery>,
    origin: Seq<(int, int)>,
    recipients: Seq<u64>,
    senders: Seq<u64>,
    batch: Map<u64, Seq<char>>,
    r: int,
    s: int,
    delivery: Delivery,
)
    requires
        0 <= r < recipients.len(),
        0 <= s < senders.len(),
        recipients[r] != senders[s],
        delivery.recipient == recipients[r],
        delivery.sender == senders[s],
        delivery.message@ == batch[senders[s]],
        fans_out_so_far(plan, origin, recipients, senders, batch, r, s),
    ensures
        fans_out_so_far(
            plan.push(delivery),
            origin.push((r, s)),
            recipients,
            senders,
            batch,
            r,
            s + 1,
        ),
{
    let more = plan.push(delivery);
    let from = origin.push((r, s));
    let n = plan.len() as int;
    assert forall|i: int| 0 <= i < more.len() implies {
        let (a, b) = #[trigger] from[i];
        &&& 0 <= a < recipients.len()
        &&& 0 <= b < senders.len()
        &&& walked(a, b, r, s + 1)
        &&& more[i].recipient == recipients[a]
        &&& more[i].sender == senders[b]
        &&& recipients[a] != senders[b]
        &&& more[i].message@ == batch[senders[b]]
    } by {
        if i < n {
            assert(from[i] == origin[i]);
            assert(more[i] == plan[i]);
            assert(walked(origin[i].0, origin[i].1, r, s));
        }
    }
    assert forall|a: int, b: int|
        0 <= a < recipients.len() && 0 <= b < senders.len() && #[trigger] walked(a, b, r, s + 1)
            && recipients[a] != senders[b] implies exists|i: int|
        0 <= i < more.len() && #[trigger] from[i] == (a, b) by {
        if a == r && b == s {
            assert(from[n] == (a, b));
        } else {
            assert(walked(a, b, r, s));
            let i = choose|i: int| 0 <= i < plan.len() && #[trigger] origin[i] == (a, b);
            assert(from[i] == (a, b));
        }
    }
    assert forall|i: int, j: int| 0 <= i < j < more.len() implies #[trigger] from[i]
        != #[trigger] from[j] by {
        assert(from[i] == origin[i]);
        if j < n {
            assert(from[j] == origin[j]);
        } else {
            assert(walked(origin[i].0, origin[i].1, r, s));
        }
    }
}

/// Past the last sender the walk goes on with the next recipient.
proof fn lemma_walk_next_recipient(
    plan: Seq<Delivery>,
    origin: Seq<(int, int)>,
    recipients: Seq<u64>,
    senders: Seq<u64>,
    batch: Map<u64, Seq<char>>,
    r: int,
)
    requires
        fans_out_so_far(plan, origin, recipients, senders, batch, r, senders.len() as int),
    ensures
        fans_out_so_far(plan, origin, recipients, senders, batch, r + 1, 0),
{
    let end = senders.len() as int;
    assert forall|i: int| 0 <= i < plan.len() implies walked(
        (#[trigger] origin[i]).0,
        origin[i].1,
        r + 1,
        0,
    ) by {
        assert(walked(origin[i].0, origin[i].1, r, end));
    }
    assert forall|a: int, b: int|
        0 <= a < recipients.len() && 0 <= b < senders.len() && #[trigger] walked(a, b, r + 1, 0)
            && recipients[a] != senders[b] implies exists|i: int|
        0 <= i < plan.len() && #[trigger] origin[i] == (a, b) by {
        assert(walked(a, b, r, end));
    }
}

/// A walk that has passed every recipient has planned the whole fan-out.
proof fn lemma_walk_is_fan_out(
    plan: Seq<Delivery>,
    origin: Seq<(int, int)>,
    recipients: Seq<u64>,
    senders: Seq<u64>,
    registered: Set<u64>,
    batch: Map<u64, Seq<char>>,
)
    requires
        recipients.no_duplicates(),
        senders.no_duplicates(),
        recipients.to_set() == registered,
        senders.to_set() == batch.dom(),
        fans_out_so_far(plan, origin, recipients, senders, batch, recipients.len() as int, 0),
    ensures
        is_fan_out(plan, registered, batch),
{
    let end = recipients.len() as int;
    assert forall|i: int| 0 <= i < plan.len() implies owes(
        registered,
        batch,
        #[trigger] plan[i].recipient,
        plan[i].sender,
    ) && plan[i].message@ == batch[plan[i].sender] by {
        let (a, b) = origin[i];
        assert(recipients.contains(recipients[a]));
        assert(senders.contains(senders[b]));
    }
    assert forall|recipient: u64, sender: u64| #[trigger]
        owes(registered, batch, recipient, sender) implies exists|i: int|
        delivers(plan, i, recipient, sender) by {
        assert(recipients.contains(recipient));
        assert(senders.to_set().contains(sender));
        assert(senders.contains(sender));
        let a = choose|a: int| 0 <= a < recipients.len() && recipients[a] == recipient;
        let b = choose|b: int| 0 <= b < senders.len() && senders[b] == sender;
        assert(walked(a, b, end, 0));
        let i = choose|i: int| 0 <= i < plan.len() && #[trigger] origin[i] == (a, b);
        assert(delivers(plan, i, recipient, sender));
    }
    assert forall|i: int, j: int| 0 <= i < j < plan.len() implies !(#[trigger] plan[i].recipient
        == #[trigger] plan[j].recipient && plan[i].sender == plan[j].sender) by {
        let (a, b) = origin[i];
        let (c, d) = origin[j];
        if plan[i].recipient == plan[j].recipient && plan[i].sender == plan[j].sender {
            assert(a == c);
            assert(b == d);
            assert(origin[i] == origin[j]);
        }
    }
}

/// The keys of a map, each once, in the order the map yields them.
fn keys_of<V>(map: &HashMap<u64, V>) -> (keys: Vec<u64>)
    ensures
        keys@.no_duplicates(),
        keys@.to_set() == map@.dom(),
{
    let mut keys: Vec<u64> = Vec::new();
    for key in it: map.keys()
        invariant
            it.seq() == map.keys().remaining(),
            keys@ == it.seq().unref().take(it.index()),
    {
        keys.push(*key);
    }
    proof {
        let yielded = map.keys().remaining();
        assert(keys@ == yielded.unref());
        assert forall|i: int, j: int| 0 <= i < j < keys@.len() implies keys@[i] != keys@[j] by {
            assert(yielded[i] != yielded[j]);
        }
    }
    keys
}

/// The live links, each under its identity.
pub struct StreamPool {
    pool: HashMap<u64, TcpStreamWrapper>,
}

impl View for StreamPool {
    type V = Map<u64, TcpStreamWrapper>;

    closed spec fn view(&self) -> Map<u64, TcpStreamWrapper> {
        self.pool@
    }
}

impl StreamPool {
    /// Every link is filed under its own identity, and only configured links
    /// are on file.
    pub open spec fn wf(&self) -> bool {
        forall|id: u64| #[trigger]
            self@.contains_key(id) ==> self@[id].id == id && self@[id].is_configured()
    }

    /// An empty registry.
    pub fn new() -> (registry: Self)
        ensures
            registry@ == Map::<u64, TcpStreamWrapper>::empty(),
            registry.wf(),
    {
        Self { pool: HashMap::new() }
    }

    /// Files `stream` under its identity. A link already on file under that
    /// identity is replaced; every other link stays as it was.
    pub fn add_strean(&mut self, stream: TcpStreamWrapper)
        requires
            old(self).wf(),
            stream.is_configured(),
        ensures
            final(self)@ == old(self)@.insert(stream.id, stream),
            final(self).wf(),
    {
        self.pool.insert(stream.id, stream);
        assert forall|id: u64| #[trigger] self@.contains_key(id) implies self@[id].id == id
            && self@[id].is_configured() by {
            if id != stream.id {
                assert(old(self)@.contains_key(id));
            }
        }
    }

    /// Gathers what a poll brought into the batch to relay. Each reading goes
    /// through the read of the link it names; a line is kept when that link is
    /// on file and the line is not empty. A read that fails keeps nothing, and
    /// of several lines from one link the last is kept.
    pub fn read_message_from_nodes(&self, reads: Vec<Reading>) -> (batch: HashMap<u64, String>)
        ensures
            batch_view(batch@) == batch_of(self@.dom(), reads@),
    {
        let mut batch: HashMap<u64, String> = HashMap::new();
        let mut i: usize = 0;
        assert(reads@.take(0) =~= Seq::<Reading>::empty());
        assert(batch_view(batch@) =~= batch_of(self@.dom(), reads@.take(0)));
        while i < reads.len()
            invariant
                i <= reads.len(),
                batch_view(batch@) == batch_of(self@.dom(), reads@.take(i as int)),
            decreases reads.len() - i,
        {
            let reading = &reads[i];
            let ghost before = batch@;
            proof {
                lemma_batch_push(self@.dom(), reads@.take(i as int), *reading);
                assert(reads@.take(i as int).push(*reading) =~= reads@.take(i + 1));
            }
            if let Some(stream) = self.pool.get(&reading.id) {
                let outcome = match &reading.outcome {
                    Ok(text) => Ok(text.as_str()),
                    Err(fault) => Err(*fault),
                };
                let line = match stream.read(outcome) {
                    Ok(line) => line,
                    Err(_) => String::new(),
                };
                if !line.as_str().is_empty() {
                    batch.insert(reading.id, line);
                    assert(batch_view(batch@) =~= batch_view(before).insert(
                        reading.id,
                        reading.line(),
                    ));
                }
            }
            i += 1;
        }
        assert(reads@.take(reads.len() as int) =~= reads@);
        batch
    }

    /// The identities of the links to poll: every link on file, each once, in
    /// no particular order.
    pub fn stream_ids(&self) -> (ids: Vec<u64>)
        ensures
            ids@.no_duplicates(),
            ids@.to_set() == self@.dom(),
    {
        keys_of(&self.pool)
    }

    /// Plans the fan-out of a batch: every line goes to every link on file but
    /// the one it came from, once, in no particular order. Writing them is the
    /// caller's part, and no write's outcome changes what the others are.
    pub fn broadcast_message(&self, messages_by_stream_id: HashMap<u64, String>) -> (plan: Vec<
        Delivery,
    >)
        ensures
            is_fan_out(plan@, self@.dom(), batch_view(messages_by_stream_id@)),
    {
        let recipients = keys_of(&self.pool);
        let senders = keys_of(&messages_by_stream_id);
        let ghost batch = batch_view(messages_by_stream_id@);
        let mut plan: Vec<Delivery> = Vec::new();
        let ghost mut origin: Seq<(int, int)> = Seq::empty();
        let mut r: usize = 0;
        while r < recipients.len()
            invariant
                r <= recipients.len(),
                recipients@.no_duplicates(),
                senders@.no_duplicates(),
                senders@.to_set() == messages_by_stream_id@.dom(),
                batch == batch_view(messages_by_stream_id@),
                fans_out_so_far(plan@, origin, recipients@, senders@, batch, r as int, 0),
            decreases recipients.len() - r,
        {
            let recipient = recipients[r];
            let mut s: usize = 0;
            while s < senders.len()
                invariant
                    r < recipients.len(),
                    s <= senders.len(),
                    recipient == recipients@[r as int],
                    recipients@.no_duplicates(),
                    senders@.no_duplicates(),
                    senders@.to_set() == messages_by_stream_id@.dom(),
                    batch == batch_view(messages_by_stream_id@),
                    fans_out_so_far(
                        plan@,
                        origin,
                        recipients@,
                        senders@,
                        batch,
                        r as int,
                        s as int,
                    ),
                decreases senders.len() - s,
            {
                let sender = senders[s];
                assert(messages_by_stream_id@.contains_key(sender)) by {
                    assert(senders@.contains(senders@[s as int]));
                }
                if recipient == sender {
                    proof {
                        lemma_walk_skip(
                            plan@,
                            origin,
                            recipients@,
                            senders@,
                            batch,
                            r as int,
                            s as int,
                        );
                    }
                } else if let Some(message) = messages_by_stream_id.get(&sender) {
                    let delivery = Delivery { recipient, sender, message: message.clone() };
                    proof {
                        lemma_walk_push(
                            plan@,
                            origin,
                            recipients@,
                            senders@,
                            batch,
                            r as int,
                            s as int,
                            delivery,
                        );
                        origin = origin.push((r as int, s as int));
                    }
                    plan.push(delivery);
                }
                s += 1;
            }
            proof {
                lemma_walk_next_recipient(plan@, origin, recipients@, senders@, batch, r as int);
            }
            r += 1;
        }
        proof {
            assert(batch.dom() =~= messages_by_stream_id@.dom());
            lemma_walk_is_fan_out(plan@, origin, recipients@, senders@, self@.dom(), batch);
        }
        plan
    }

    /// The relaying half of one cycle: gathers what the poll brought and plans
    /// the fan-out of it.
    pub fn relay(&self, reads: Vec<Reading>) -> (plan: Vec<Delivery>)
        ensures
            is_fan_out(plan@, self@.dom(), batch_of(self@.dom(), reads@)),
    {
        let batch = self.read_message_from_nodes(reads);
        self.broadcast_message(batch)
    }

    /// Takes the link under `id` off file and hands it back; every other link
    /// stays as it was.
    pub fn remove(&mut self, id: u64) -> (removed: Option<TcpStreamWrapper>)
        requires
            old(self).wf(),
        ensures
            final(self)@ == old(self)@.remove(id),
            final(self).wf(),
            match removed {
                Some(stream) => old(self)@.contains_key(id) && stream == old(self)@[id],
                None => !old(self)@.contains_key(id),
            },
    {
        let removed = self.pool.remove(&id);
        assert forall|other: u64| #[trigger] self@.contains_key(other) implies self@[other].id
            == other && self@[other].is_configured() by {
            assert(old(self)@.contains_key(other));
        }
        removed
    }

    /// The link on file under `id`, if there is one.
    pub fn get(&self, id: u64) -> (stream: Option<TcpStreamWrapper>)
        ensures
            match stream {
                Some(found) => self@.contains_key(id) && found == self@[id],
                None => !self@.contains_key(id),
            },
    {
        match self.pool.get(&id) {
            Some(found) => Some(*found),
            None => None,
        }
    }

    /// How many links are on file.
    pub fn len(&self) -> (count: usize)
        ensures
            count == self@.len(),
    {
        self.pool.len()
    }
}

/// The line of `sender` reached `recipient`: the plan holds that delivery, and
/// its write, whose outcome stands at the same place in `outcomes`, went well.
pub open spec fn reached(
    plan: Seq<Delivery>,
    outcomes: Seq<Result<(), TransportFault>>,
    recipient: u64,
    sender: u64,
) -> bool {
    exists|i: int|
        delivers(plan, i, recipient, sender) && i < outcomes.len() && write_result(outcomes[i])
            is Ok
}

/// A fan-out sends each line to every link on file other than its sender,
/// with the sender's text, and sends no link its own line.
pub proof fn lemma_fan_out_spares_only_the_sender(
    plan: Seq<Delivery>,
    registered: Set<u64>,
    batch: Map<u64, Seq<char>>,
    recipient: u64,
    sender: u64,
)
    requires
        is_fan_out(plan, registered, batch),
        registered.contains(recipient),
        batch.contains_key(sender),
    ensures
        recipient != sender ==> exists|i: int|
            delivers(plan, i, recipient, sender) && plan[i].message@ == batch[sender],
        forall|i: int| 0 <= i < plan.len() ==> #[trigger] plan[i].recipient != plan[i].sender,
{
    if recipient != sender {
        assert(owes(registered, batch, recipient, sender));
        let i = choose|i: int| delivers(plan, i, recipient, sender);
        assert(plan[i].message@ == batch[plan[i].sender]);
    }
    assert forall|i: int| 0 <= i < plan.len() implies #[trigger] plan[i].recipient
        != plan[i].sender by {
        assert(owes(registered, batch, plan[i].recipient, plan[i].sender));
    }
}

/// A fan-out reaches no link that is not on file and carries no line of a
/// link that is not in the batch.
pub proof fn lemma_fan_out_stays_on_file(
    plan: Seq<Delivery>,
    registered: Set<u64>,
    batch: Map<u64, Seq<char>>,
    id: u64,
)
    requires
        is_fan_out(plan, registered, batch),
    ensures
        !registered.contains(id) ==> forall|i: int|
            0 <= i < plan.len() ==> (#[trigger] plan[i]).recipient != id,
        !batch.contains_key(id) ==> forall|i: int|
            0 <= i < plan.len() ==> (#[trigger] plan[i]).sender != id,
{
    assert forall|i: int| 0 <= i < plan.len() implies registered.contains(
        (#[trigger] plan[i]).recipient,
    ) && batch.contains_key(plan[i].sender) by {
        assert(owes(registered, batch, plan[i].recipient, plan[i].sender));
    }
}

/// A failed write stays with the link it failed on: where every write to the
/// other links goes well, each of them gets every line owed to it, whatever
/// became of the writes to the failing link.
pub proof fn lemma_write_failure_stays_local(
    plan: Seq<Delivery>,
    registered: Set<u64>,
    batch: Map<u64, Seq<char>>,
    outcomes: Seq<Result<(), TransportFault>>,
    failing: u64,
    recipient: u64,
    sender: u64,
)
    requires
        is_fan_out(plan, registered, batch),
        outcomes.len() == plan.len(),
        owes(registered, batch, recipient, sender),
        recipient != failing,
        forall|i: int|
            0 <= i < plan.len() && (#[trigger] plan[i]).recipient != failing ==> outcomes[i] is Ok,
    ensures
        reached(plan, outcomes, recipient, sender),
{
    let i = choose|i: int| delivers(plan, i, recipient, sender);
    assert(plan[i].recipient != failing);
    assert(delivers(plan, i, recipient, sender) && i < outcomes.len() && write_result(outcomes[i])
        is Ok);
}

/// A poll puts a line in the batch only for a link on file.
pub proof fn lemma_batch_stays_on_file(registered: Set<u64>, reads: Seq<Reading>, id: u64)
    requires
        !registered.contains(id),
    ensures
        !batch_of(registered, reads).contains_key(id),
{
}

/// A poll in which no reading brought a line yields an empty batch.
pub proof fn lemma_quiet_poll_is_empty(registered: Set<u64>, reads: Seq<Reading>)
    requires
        forall|i: int| 0 <= i < reads.len() ==> (#[trigger] reads[i]).line().len() == 0,
    ensures
        batch_of(registered, reads) == Map::<u64, Seq<char>>::empty(),
{
    assert forall|id: u64| !batch_of(registered, reads).contains_key(id) by {
        if exists|i: int| speaks(reads, i, id) {
            let i = choose|i: int| speaks(reads, i, id);
            assert(reads[i].line().len() == 0);
        }
    }
    assert(batch_of(registered, reads) =~= Map::<u64, Seq<char>>::empty());
}

/// A link that had nothing to send is read as an empty line and never as an
/// error, however often it is polled: two polls in a row of links without
/// data both yield the empty batch.
pub proof fn lemma_polling_without_data_repeats(
    registered: Set<u64>,
    first: Seq<Reading>,
    second: Seq<Reading>,
)
    requires
        forall|i: int|
            0 <= i < first.len() ==> (#[trigger] first[i]).outcome == Err::<String, TransportFault>(
                TransportFault::WouldBlock,
            ),
        forall|i: int|
            0 <= i < second.len() ==> (#[trigger] second[i]).outcome == Err::<
                String,
                TransportFault,
            >(TransportFault::WouldBlock),
    ensures
        line_read(Err(TransportFault::WouldBlock)) == Ok::<Seq<char>, crate::tcp::ReadError>(
            Seq::empty(),
        ),
        batch_of(registered, first) == Map::<u64, Seq<char>>::empty(),
        batch_of(registered, second) == Map::<u64, Seq<char>>::empty(),
{
    assert forall|i: int| 0 <= i < first.len() implies (#[trigger] first[i]).line().len() == 0 by {}
    assert forall|i: int| 0 <= i < second.len() implies (#[trigger] second[i]).line().len()
        == 0 by {}
    lemma_quiet_poll_is_empty(registered, first);
    lemma_quiet_poll_is_empty(registered, second);
}

/// A link whose configuration the transport refused is not on file in any
/// well-formed registry, so no poll reads it and no fan-out writes to it.
pub proof fn lemma_refused_link_is_not_on_file(
    pool: StreamPool,
    stream: TcpStreamWrapper,
    refused: Setting,
    after: TcpStreamWrapper,
)
    requires
        pool.wf(),
        stream.configured_with(Some(refused), after),
    ensures
        !after.is_configured(),
        forall|id: u64| pool@.contains_key(id) ==> #[trigger] pool@[id] != after,
{
}

} // verus!
