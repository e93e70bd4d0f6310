//! The publishing side of the transport: known topics and the retry queue.
use std::collections::VecDeque;
use vstd::prelude::*;

verus! {

/// A message to publish: its topic and its payload.
pub open spec fn message_view(m: (String, Vec<u8>)) -> (Seq<char>, Seq<u8>) {
    (m.0@, m.1@)
}

/// The views of a sequence of messages, in order.
pub open spec fn message_seq(q: Seq<(String, Vec<u8>)>) -> Seq<(Seq<char>, Seq<u8>)> {
    q.map_values(|m: (String, Vec<u8>)| message_view(m))
}

/// The messages of `batch` whose publication failed (`published[i]` is false), in order.
pub open spec fn failed_messages<M>(batch: Seq<M>, published: Seq<bool>) -> Seq<M>
    decreases batch.len(),
{
    if batch.len() == 0 {
        Seq::empty()
    } else {
        let n = batch.len() - 1;
        let before = failed_messages(batch.take(n), published);
        if published[n] {
            before
        } else {
            before.push(batch[n])
        }
    }
}

/// The messages of `batch` that were published (`published[i]` is true), in order.
pub open spec fn published_messages<M>(batch: Seq<M>, published: Seq<bool>) -> Seq<M>
    decreases batch.len(),
{
    if batch.len() == 0 {
        Seq::empty()
    } else {
        let n = batch.len() - 1;
        let before = published_messages(batch.take(n), published);
        if published[n] {
            before.push(batch[n])
        } else {
            before
        }
    }
}

/// A retry round loses no message and duplicates none: the messages requeued and the messages
/// published together are exactly the batch.
pub proof fn lemma_retry_round_keeps_every_message<M>(batch: Seq<M>, published: Seq<bool>)
    ensures
        failed_messages(batch, published).to_multiset().add(
            published_messages(batch, published).to_multiset(),
        ) == batch.to_multiset(),
    decreases batch.len(),
{
    broadcast use vstd::seq_lib::group_to_multiset_ensures;

    if batch.len() > 0 {
        let n = batch.len() - 1;
        lemma_retry_round_keeps_every_message(batch.take(n), published);
        assert(batch.take(n).push(batch[n]) == batch);
        assert(failed_messages(batch, published).to_multiset().add(
            published_messages(batch, published).to_multiset(),
        ) =~= batch.to_multiset());
    } else {
        assert(batch.to_multiset() =~= vstd::multiset::Multiset::empty());
    }
}

/// Where every publication failed, the whole batch is requeued, in its order.
pub proof fn lemma_retry_round_all_failed<M>(batch: Seq<M>, published: Seq<bool>)
    requires
        forall|i: int| 0 <= i < batch.len() ==> !published[i],
    ensures
        failed_messages(batch, published) == batch,
    decreases batch.len(),
{
    if batch.len() > 0 {
        let n = batch.len() - 1;
        lemma_retry_round_all_failed(batch.take(n), published);
        assert(batch.take(n).push(batch[n]) =~= batch);
    }
}

/// Where every publication succeeded, nothing is requeued.
pub proof fn lemma_retry_round_all_published<M>(batch: Seq<M>, published: Seq<bool>)
    requires
        forall|i: int| 0 <= i < batch.len() ==> published[i],
    ensures
        failed_messages(batch, published) == Seq::<M>::empty(),
    decreases batch.len(),
{
    if batch.len() > 0 {
        let n = batch.len() - 1;
        lemma_retry_round_all_published(batch.take(n), published);
    }
}

proof fn lemma_failed_messages_step<M>(batch: Seq<M>, published: Seq<bool>, i: int)
    requires
        0 <= i < batch.len(),
    ensures
        failed_messages(batch.take(i + 1), published) == (if published[i] {
            failed_messages(batch.take(i), published)
        } else {
            failed_messages(batch.take(i), published).push(batch[i])
        }),
{
    assert(batch.take(i + 1).take(i) == batch.take(i));
    assert(batch.take(i + 1)[i] == batch[i]);
}

/// The topics that the node knows, and the messages that wait to be published again.
pub struct TransportState {
    topics: Vec<String>,
    retry_queue: VecDeque<(String, Vec<u8>)>,
}

impl TransportState {
    /// The known topics.
    pub closed spec fn topics(&self) -> Set<Seq<char>> {
        self.topics@.map_values(|t: String| t@).to_set()
    }

    /// The messages waiting to be published again, first to be retried first.
    pub closed spec fn queue(&self) -> Seq<(Seq<char>, Seq<u8>)> {
        message_seq(self.retry_queue@)
    }

    /// A state that knows no topic and has nothing to retry.
    pub fn new() -> (r: Self)
        ensures
            r.topics() == Set::<Seq<char>>::empty(),
            r.queue() == Seq::<(Seq<char>, Seq<u8>)>::empty(),
    {
        let r = TransportState { topics: Vec::new(), retry_queue: VecDeque::new() };
        assert(r.topics() =~= Set::<Seq<char>>::empty());
        assert(r.queue() =~= Seq::<(Seq<char>, Seq<u8>)>::empty());
        r
    }

    /// Whether `topic` is known.
    pub fn knows_topic(&self, topic: &str) -> (r: bool)
        ensures
            r == self.topics().contains(topic@),
    {
        let wanted = topic.to_owned();
        let mut i: usize = 0;
        while i < self.topics.len()
            invariant
                i <= self.topics.len(),
                wanted@ == topic@,
                forall|j: int| 0 <= j < i ==> self.topics@[j]@ != topic@,
            decreases self.topics.len() - i,
        {
            if self.topics[i] == wanted {
                assert(self.topics@.map_values(|t: String| t@)[i as int] == topic@);
                return true;
            }
            i = i + 1;
        }
        assert forall|x: Seq<char>| #[trigger] self.topics().contains(x) implies x != topic@ by {
            let m = self.topics@.map_values(|t: String| t@);
            let j = choose|j: int| 0 <= j < m.len() && m[j] == x;
            assert(self.topics@[j]@ == x);
        }
        false
    }

    /// Makes the handler's topics known (subscribing is the swarm's part).
    pub fn register_topics(&mut self, topics: &Vec<&str>)
        ensures
            final(self).topics() == old(self).topics().union(
                topics@.map_values(|t: &str| t@).to_set(),
            ),
            final(self).queue() == old(self).queue(),
    {
        let mut i: usize = 0;
        while i < topics.len()
            invariant
                i <= topics.len(),
                self.queue() == old(self).queue(),
                self.topics() == old(self).topics().union(
                    topics@.take(i as int).map_values(|t: &str| t@).to_set(),
                ),
            decreases topics.len() - i,
        {
            let t = topics[i];
            let ghost before = self.topics@;
            if !self.knows_topic(t) {
                self.topics.push(t.to_owned());
                proof {
                    assert(self.topics@.map_values(|s: String| s@) =~= before.map_values(
                        |s: String| s@,
                    ).push(t@));
                    before.map_values(|s: String| s@).lemma_push_to_set_commute(t@);
                }
            }
            proof {
                assert(topics@.take(i + 1).map_values(|s: &str| s@) =~= topics@.take(
                    i as int,
                ).map_values(|s: &str| s@).push(t@));
                topics@.take(i as int).map_values(|s: &str| s@).lemma_push_to_set_commute(t@);
                assert(self.topics() =~= old(self).topics().union(
                    topics@.take(i + 1).map_values(|s: &str| s@).to_set(),
                ));
            }
            i = i + 1;
        }
        assert(topics@.take(topics@.len() as int) == topics@);
    }

    /// Takes in the outcome of publishing `data` to `topic`: a message that could not be
    /// published is queued, last, for a later retry.
    pub fn on_publish_result(&mut self, topic: &str, data: Vec<u8>, published: bool)
        ensures
            final(self).topics() == old(self).topics(),
            final(self).queue() == (if published {
                old(self).queue()
            } else {
                old(self).queue().push((topic@, data@))
            }),
    {
        if !published {
            let m = (topic.to_owned(), data);
            proof {
                assert(message_seq(self.retry_queue@.push(m)) =~= message_seq(
                    self.retry_queue@,
                ).push(message_view(m)));
            }
            self.retry_queue.push_back(m);
        }
    }

    /// Starts a retry round: hands out every queued message, first queued first, and leaves the
    /// queue empty.
    pub fn take_retry_batch(&mut self) -> (r: VecDeque<(String, Vec<u8>)>)
        ensures
            message_seq(r@) == old(self).queue(),
            final(self).queue() == Seq::<(Seq<char>, Seq<u8>)>::empty(),
            final(self).topics() == old(self).topics(),
    {
        let mut batch = VecDeque::new();
        std::mem::swap(&mut batch, &mut self.retry_queue);
        assert(message_seq(self.retry_queue@) =~= Seq::<(Seq<char>, Seq<u8>)>::empty());
        batch
    }

    /// Ends a retry round: `published[i]` tells whether the `i`-th message of `batch` was
    /// published; those that were not go back to the queue, in their order.
    pub fn finish_retry(&mut self, batch: VecDeque<(String, Vec<u8>)>, published: &Vec<bool>)
        requires
            batch@.len() == published@.len(),
        ensures
            final(self).queue() == old(self).queue() + failed_messages(
                message_seq(batch@),
                published@,
            ),
            final(self).topics() == old(self).topics(),
    {
        let ghost b0 = message_seq(batch@);
        let n = published.len();
        let mut batch = batch;
        let mut i: usize = 0;
        assert(failed_messages(b0.take(0), published@) =~= Seq::<(Seq<char>, Seq<u8>)>::empty());
        assert(old(self).queue() + Seq::<(Seq<char>, Seq<u8>)>::empty() =~= old(self).queue());
        while i < n
            invariant
                n == published@.len(),
                b0.len() == n,
                i <= n,
                batch@.len() == n - i,
                message_seq(batch@) == b0.subrange(i as int, n as int),
                self.queue() == old(self).queue() + failed_messages(b0.take(i as int), published@),
                self.topics() == old(self).topics(),
            decreases n - i,
        {
            let ghost rest = batch@;
            let m = batch.pop_front().unwrap();
            proof {
                assert(message_view(m) == message_seq(rest)[0]);
                assert forall|k: int| 0 <= k < batch@.len() implies #[trigger] message_seq(batch@)[k]
                    == b0.subrange(i + 1, n as int)[k] by {
                    assert(batch@[k] == rest[k + 1]);
                    assert(message_seq(rest)[k + 1] == b0.subrange(i as int, n as int)[k + 1]);
                }
                assert(message_seq(batch@) =~= b0.subrange(i + 1, n as int));
                lemma_failed_messages_step(b0, published@, i as int);
            }
            if !published[i] {
                proof {
                    assert(message_seq(self.retry_queue@.push(m)) =~= message_seq(
                        self.retry_queue@,
                    ).push(message_view(m)));
                }
                self.retry_queue.push_back(m);
            }
            assert(self.queue() =~= old(self).queue() + failed_messages(
                b0.take(i + 1),
                published@,
            ));
            i = i + 1;
        }
        assert(b0.take(n as int) == b0);
    }

    /// The messages waiting to be published again, first to be retried first.
    pub fn pending_messages(&self) -> (r: Vec<(String, Vec<u8>)>)
        ensures
            message_seq(r@) == self.queue(),
    {
        let mut r: Vec<(String, Vec<u8>)> = Vec::new();
        let mut i: usize = 0;
        while i < self.retry_queue.len()
            invariant
                i <= self.retry_queue@.len(),
                message_seq(r@) == message_seq(self.retry_queue@.take(i as int)),
            decreases self.retry_queue@.len() - i,
        {
            let m = &self.retry_queue[i];
            let data = m.1.clone();
            assert(data@ =~= m.1@);
            let c = (m.0.clone(), data);
            proof {
                assert(message_seq(r@.push(c)) =~= message_seq(r@).push(message_view(c)));
                assert(message_seq(self.retry_queue@.take(i + 1)) =~= message_seq(
                    self.retry_queue@.take(i as int),
                ).push(message_view(self.retry_queue@[i as int])));
            }
            r.push(c);
            i = i + 1;
        }
        assert(self.retry_queue@.take(self.retry_queue@.len() as int) == self.retry_queue@);
        r
    }
}

} // verus!
