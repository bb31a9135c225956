use crate::ring::{ring_step, Ring, RingIterator};
use crate::text::{ngram_set, normalize, normalize_spec, unique_char_ngrams};
use vstd::prelude::*;

verus! {

/// The burst detector's two states.
#[derive(Clone, Copy, PartialEq, Eq, Structural, Debug)]
pub enum Phase {
    Idle,
    InSpike,
}

impl Default for Phase {
    /// A detector starts out quiet.
    fn default() -> (r: Self)
        ensures
            r == Phase::Idle,
    {
        Phase::Idle
    }
}

/// What one step of the burst state machine announces: a spike has begun, a
/// spike has ended, or nothing changed.
#[derive(Clone, Copy, PartialEq, Eq, Structural, Debug)]
pub enum Transition {
    Hold,
    Begin,
    End,
}

/// One hysteresis step of the burst state machine. In `Idle`, only a
/// surprise above the start threshold opens a spike; in `InSpike`, only a
/// surprise below the end threshold closes it; anything else holds the
/// phase, so the detector cannot flap inside the threshold band.
pub fn step_phase(phase: Phase, above_start: bool, below_end: bool) -> (r: (Phase, Transition))
    ensures
        phase == Phase::Idle && above_start ==> r == (Phase::InSpike, Transition::Begin),
        phase == Phase::Idle && !above_start ==> r == (Phase::Idle, Transition::Hold),
        phase == Phase::InSpike && below_end ==> r == (Phase::Idle, Transition::End),
        phase == Phase::InSpike && !below_end ==> r == (Phase::InSpike, Transition::Hold),
{
    match phase {
        Phase::Idle => if above_start {
            (Phase::InSpike, Transition::Begin)
        } else {
            (Phase::Idle, Transition::Hold)
        },
        Phase::InSpike => if below_end {
            (Phase::Idle, Transition::End)
        } else {
            (Phase::InSpike, Transition::Hold)
        },
    }
}

/// One retained message: its normalized text and an optional caller payload.
#[derive(Clone)]
pub struct ChatCache<D> {
    pub chat: String,
    pub data: Option<D>,
}

/// Sliding window of the `S` most recent messages, with the running logical
/// message index that drives the decay of the shared token dictionary.
pub struct ChatWindow<const S: usize, const L: usize, D> {
    pub recent_chats: Ring<ChatCache<D>, S>,
    pub ngram_range: (usize, usize),
    pub last_chat_idx: usize,
}

impl<const S: usize, const L: usize, D> Default for ChatWindow<S, L, D> {
    /// An empty window over the default `[1, 4]` n-gram range; well-formed
    /// whenever the horizons are usable.
    fn default() -> (r: Self)
        ensures
            S >= 1 && L >= 1 ==> r.wf(),
            r.recent_chats@ == Seq::<ChatCache<D>>::empty(),
            r.ngram_range == (1usize, 4usize),
            r.last_chat_idx == 0,
    {
        ChatWindow { recent_chats: Ring::default(), ngram_range: (1, 4), last_chat_idx: 0 }
    }
}

impl<const S: usize, const L: usize, D> ChatWindow<S, L, D> {
    /// Valid horizons and a usable n-gram range.
    pub open spec fn wf(&self) -> bool {
        &&& S >= 1
        &&& L >= 1
        &&& self.recent_chats.wf()
        &&& 1 <= self.ngram_range.0 <= self.ngram_range.1
    }

    pub fn new() -> (r: Self)
        requires
            S >= 1,
            L >= 1,
        ensures
            r.wf(),
            r.recent_chats@ == Seq::<ChatCache<D>>::empty(),
            r.ngram_range == (1usize, 4usize),
            r.last_chat_idx == 0,
    {
        ChatWindow { recent_chats: Ring::new(), ngram_range: (1, 4), last_chat_idx: 0 }
    }

    pub fn with_ngram_range(self, min: usize, max: usize) -> (r: Self)
        requires
            1 <= min <= max,
    ensures
            r.ngram_range == (min, max),
            r.recent_chats == self.recent_chats,
            r.last_chat_idx == self.last_chat_idx,
    {
        ChatWindow { ngram_range: (min, max), ..self }
    }

    /// Insert a message without touching any dictionary.
    pub fn push(&mut self, chat: String)
        requires
            old(self).wf(),
        ensures
            final(self).wf(),
            final(self).ngram_range == old(self).ngram_range,
            final(self).last_chat_idx == old(self).last_chat_idx,
            final(self).recent_chats@ == ring_step(
                old(self).recent_chats@,
                (ChatCache { chat, data: None }),
                S as int,
            ),
    {
        self.push_with_data(chat, None)
    }

    pub fn push_with_data(&mut self, chat: String, data: Option<D>)
        requires
            old(self).wf(),
        ensures
            final(self).wf(),
            final(self).ngram_range == old(self).ngram_range,
            final(self).last_chat_idx == old(self).last_chat_idx,
            final(self).recent_chats@ == ring_step(
                old(self).recent_chats@,
                (ChatCache { chat, data }),
                S as int,
            ),
    {
        self.recent_chats.push(ChatCache { chat, data });
    }

    /// Advance the logical message index, normalize the message, store it in
    /// the window, and hand back its distinct tokens so the caller can record
    /// them in a dictionary of its choice at the new index.
    pub fn push_tokenized(&mut self, chat: String, data: Option<D>) -> (tokens: Vec<String>)
        requires
            old(self).wf(),
            old(self).last_chat_idx < usize::MAX,
        ensures
            final(self).wf(),
            final(self).ngram_range == old(self).ngram_range,
            final(self).last_chat_idx == old(self).last_chat_idx + 1,
            final(self).recent_chats@.last().chat@ == normalize_spec(chat@),
            final(self).recent_chats@.last().data == data,
            final(self).recent_chats@ == ring_step(
                old(self).recent_chats@,
                final(self).recent_chats@.last(),
                S as int,
            ),
            tokens@.map_values(|t: String| t@).to_set() == ngram_set(
                normalize_spec(chat@),
                old(self).ngram_range.0 as int,
                old(self).ngram_range.1 as int,
            ),
            forall|a: int, b: int| 0 <= a < b < tokens@.len() ==> tokens@[a]@ != tokens@[b]@,
    {
        self.last_chat_idx = self.last_chat_idx + 1;
        let normalized = normalize(chat.as_str());
        let tokens = unique_char_ngrams(
            normalized.as_str(),
            self.ngram_range.0,
            self.ngram_range.1,
        );
        self.recent_chats.push(ChatCache { chat: normalized, data });
        tokens
    }

    /// How many messages the window currently retains.
    pub fn len(&self) -> (n: usize)
        requires
            self.wf(),
        ensures
            n == self.recent_chats@.len(),
    {
        self.recent_chats.len()
    }

    /// The `i`-th retained message, counting from the oldest.
    pub fn get(&self, i: usize) -> (r: &ChatCache<D>)
        requires
            self.wf(),
            i < self.recent_chats@.len(),
        ensures
            *r == self.recent_chats@[i as int],
    {
        self.recent_chats.get(i)
    }

    pub fn iter(&self) -> (it: RingIterator<'_, ChatCache<D>, S>)
        requires
            self.wf(),
        ensures
            it.ring == &self.recent_chats,
            it.index == 0,
    {
        self.recent_chats.iter()
    }
}

/// Index of the largest ranking key, preferring the latest on exact ties;
/// `None` exactly when there is nothing to rank.
pub fn argmax_latest(keys: &Vec<u64>) -> (r: Option<usize>)
    ensures
        match r {
            Some(i) => {
                &&& keys@.len() > 0
                &&& i < keys@.len()
                &&& forall|j: int| 0 <= j < keys@.len() ==> keys@[j] <= keys@[i as int]
                &&& forall|j: int| i < j < keys@.len() ==> keys@[j] < keys@[i as int]
            },
            None => keys@.len() == 0,
        },
{
    if keys.len() == 0 {
        return None;
    }
    let mut best: usize = 0;
    for i in 1..keys.len()
        invariant
            best < i <= keys@.len(),
            forall|j: int| 0 <= j < i ==> keys@[j] <= keys@[best as int],
            forall|j: int| best < j < i ==> keys@[j] < keys@[best as int],
    {
        if keys[i] >= keys[best] {
            best = i;
        }
    }
    Some(best)
}

} // verus!
