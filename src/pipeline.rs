//! The three-stage pipeline with its feedback path.
//!
//! ```text
//!   producer --> [input] --> stage 1 --> [s1_to_s2] --> stage 2 --> [s2_to_s3] --> stage 3 --> results
//!                               ^                           |
//!                               +------- [feedback] <-------+
//! ```
//!
//! Each stage is a step function that reads only its own ports; the
//! scheduler runs whichever stage can move. Stage 1 always takes what
//! arrives on the feedback channel into a local backlog, so stage 2 is never
//! stuck behind a full feedback channel while stage 1 is stuck behind a full
//! forward channel. Stage 1 counts the records it forwarded that will come
//! back; it closes its output once its input is exhausted and none is still
//! owed, and stage 2 then closes the feedback channel and its own output.

use vstd::prelude::*;
use vstd::multiset::Multiset;
use crate::channel::{BoundedChannel, Recv};
use crate::record::{
    Record, checksum, ids, mark_retried, needs_feedback, route_back, stage1_process,
    stage2_finish, stamped,
};

verus! {

/// Where a stage is in its life.
#[derive(Debug, Clone, Copy, PartialEq, Eq, Structural)]
pub enum StageState {
    /// Its input is still open.
    Running,
    /// Its input is closed; it is finishing what is in flight.
    Draining,
    /// It has closed everything it sends on and will do nothing more.
    Done,
}

/// The three stages.
#[derive(Debug, Clone, Copy, PartialEq, Eq, Structural)]
pub enum Stage {
    First,
    Second,
    Third,
}

pub open spec fn rank(s: StageState) -> int {
    match s {
        StageState::Running => 0,
        StageState::Draining => 1,
        StageState::Done => 2,
    }
}

/// How a pipeline run is set up.
#[derive(Debug, Clone, Copy)]
pub struct PipelineConfig {
    /// Records with ids `1..=num_records` are produced.
    pub num_records: u32,
    /// The capacity of each of the four channels.
    pub channel_bound: usize,
    /// Records whose id is a multiple of this go round the feedback path
    /// once; zero turns feedback off.
    pub feedback_every: u32,
}

impl Default for PipelineConfig {
    fn default() -> (c: Self)
        ensures
            c.num_records == 500,
            c.channel_bound == 5,
            c.feedback_every == 7,
    {
        PipelineConfig { num_records: 500, channel_bound: 5, feedback_every: 7 }
    }
}

/// The multiset of the ids `1..=n`.
pub open spec fn id_range(n: nat) -> Multiset<u32>
    decreases n,
{
    if n == 0 {
        Multiset::empty()
    } else {
        id_range((n - 1) as nat).insert(n as u32)
    }
}

/// The ids `1..=n` each occur once in `id_range(n)`, and no other.
pub proof fn lemma_id_range_count(n: nat, x: u32)
    requires
        n <= u32::MAX,
    ensures
        id_range(n).count(x) == (if 1 <= x <= n {
            1nat
        } else {
            0nat
        }),
    decreases n,
{
    if n > 0 {
        lemma_id_range_count((n - 1) as nat, x);
    }
}

/// The number of records of `s` that stage 2 will still send back.
pub open spec fn owed(s: Seq<Record>, every: u32) -> nat
    decreases s.len(),
{
    if s.len() == 0 {
        0
    } else {
        owed(s.drop_last(), every) + if needs_feedback(s.last(), every) {
            1nat
        } else {
            0nat
        }
    }
}

pub open spec fn opt_ids(o: Option<Record>) -> Multiset<u32> {
    match o {
        Some(r) => Multiset::singleton(r.id),
        None => Multiset::empty(),
    }
}

pub open spec fn opt_owed(o: Option<Record>, every: u32) -> nat {
    match o {
        Some(r) => if needs_feedback(r, every) {
            1nat
        } else {
            0nat
        },
        None => 0,
    }
}

pub open spec fn opt_len(o: Option<Record>) -> nat {
    if o is Some {
        1nat
    } else {
        0nat
    }
}

pub open spec fn all_stamped(s: Seq<Record>) -> bool {
    forall|i: int| 0 <= i < s.len() ==> #[trigger] s[i].value == stamped(s[i].id)
}

pub open spec fn all_sealed(s: Seq<Record>) -> bool {
    forall|i: int| 0 <= i < s.len() ==> #[trigger] s[i].value == checksum(s[i].id)
}

pub open spec fn opt_stamped(o: Option<Record>) -> bool {
    o matches Some(r) ==> r.value == stamped(r.id)
}

pub open spec fn opt_sealed(o: Option<Record>) -> bool {
    o matches Some(r) ==> r.value == checksum(r.id)
}

proof fn lemma_push(s: Seq<Record>, x: Record, every: u32)
    ensures
        ids(s.push(x)) == ids(s).insert(x.id),
        owed(s.push(x), every) == owed(s, every) + if needs_feedback(x, every) {
            1nat
        } else {
            0nat
        },
{
    assert(s.push(x).drop_last() =~= s);
}

proof fn lemma_front(s: Seq<Record>, every: u32)
    requires
        s.len() > 0,
    ensures
        ids(s) =~= ids(s.subrange(1, s.len() as int)).insert(s[0].id),
        owed(s, every) == owed(s.subrange(1, s.len() as int), every) + if needs_feedback(
            s[0],
            every,
        ) {
            1nat
        } else {
            0nat
        },
    decreases s.len(),
{
    let rest = s.subrange(1, s.len() as int);
    if s.len() == 1 {
        assert(s.drop_last() =~= Seq::<Record>::empty());
        assert(rest =~= Seq::<Record>::empty());
    } else {
        lemma_front(s.drop_last(), every);
        assert(s.drop_last().subrange(1, s.len() - 1) =~= rest.drop_last());
        assert(rest.last() == s.last());
    }
}

proof fn lemma_owed_le_len(s: Seq<Record>, every: u32)
    ensures
        owed(s, every) <= s.len(),
    decreases s.len(),
{
    if s.len() > 0 {
        lemma_owed_le_len(s.drop_last(), every);
    }
}

/// The state of a pipeline run: the four channels, what each stage holds,
/// and the results collected so far.
pub struct Pipeline {
    config: PipelineConfig,
    /// The id the producer sends next.
    next: u64,
    input: BoundedChannel<Record>,
    s1_to_s2: BoundedChannel<Record>,
    s2_to_s3: BoundedChannel<Record>,
    feedback: BoundedChannel<Record>,
    /// A record stage 1 has processed and not yet forwarded.
    s1_hold: Option<Record>,
    /// Records stage 1 took from the feedback channel and has not yet
    /// reprocessed.
    backlog: Vec<Record>,
    /// Records stage 1 forwarded that stage 2 will send back and that stage 1
    /// has not yet taken from the feedback channel.
    awaiting: u64,
    /// A record stage 2 finished and has not yet forwarded.
    s2_fwd: Option<Record>,
    /// A record stage 2 is sending back and has not yet sent.
    s2_fb: Option<Record>,
    results: Vec<Record>,
}

impl Pipeline {
    pub closed spec fn config(&self) -> PipelineConfig {
        self.config
    }

    pub closed spec fn collected(&self) -> Seq<Record> {
        self.results@
    }

    /// The ids of every record produced so far, wherever it is.
    pub closed spec fn all_ids(&self) -> Multiset<u32> {
        ids(self.input.items()).add(opt_ids(self.s1_hold)).add(ids(self.s1_to_s2.items())).add(
            opt_ids(self.s2_fwd),
        ).add(opt_ids(self.s2_fb)).add(ids(self.s2_to_s3.items())).add(
            ids(self.feedback.items()),
        ).add(ids(self.backlog@)).add(ids(self.results@))
    }

    /// The number of records produced so far, wherever they are.
    pub closed spec fn in_flight_len(&self) -> nat {
        self.input.items().len() + opt_len(self.s1_hold) + self.s1_to_s2.items().len() + opt_len(
            self.s2_fwd,
        ) + opt_len(self.s2_fb) + self.s2_to_s3.items().len() + self.feedback.items().len()
            + self.backlog@.len() + self.results@.len()
    }

    /// An upper bound on the steps left before the run is done.
    pub closed spec fn remaining_work(&self) -> int {
        let e = self.config.feedback_every;
        11 * (self.config.num_records + 1 - self.next) + 5 * self.input.items().len() + 4
            * opt_len(self.s1_hold) + 3 * self.s1_to_s2.items().len() + 2 * opt_len(self.s2_fwd)
            + self.s2_to_s3.items().len() + 7 * opt_len(self.s2_fb) + 6
            * self.feedback.items().len() + 5 * self.backlog@.len() + 5 * (owed(
            self.input.items(),
            e,
        ) + opt_owed(self.s1_hold, e) + owed(self.s1_to_s2.items(), e) + opt_owed(self.s2_fwd, e)
            + opt_owed(self.s2_fb, e) + owed(self.s2_to_s3.items(), e) + owed(
            self.feedback.items(),
            e,
        ) + owed(self.backlog@, e)) + (if self.input.is_closed() {
            0int
        } else {
            1int
        }) + (if self.s1_to_s2.is_closed() {
            0int
        } else {
            1int
        }) + (if self.feedback.is_closed() {
            0int
        } else {
            1int
        })
    }

    /// The state of a stage. Stage 1 is done once its output is closed and
    /// the feedback channel is closed and drained; stage 2 once it has closed
    /// the feedback channel and its output; stage 3 once its input is closed
    /// and drained.
    pub closed spec fn phase(&self, stage: Stage) -> StageState {
        match stage {
            Stage::First => if self.s1_to_s2.is_closed() && self.feedback.is_closed()
                && self.feedback.items().len() == 0 {
                StageState::Done
            } else if self.input.is_closed() {
                StageState::Draining
            } else {
                StageState::Running
            },
            Stage::Second => if self.feedback.is_closed() && self.s2_to_s3.is_closed() {
                StageState::Done
            } else if self.s1_to_s2.is_closed() {
                StageState::Draining
            } else {
                StageState::Running
            },
            Stage::Third => if self.s2_to_s3.is_closed() && self.s2_to_s3.items().len() == 0 {
                StageState::Done
            } else if self.s2_to_s3.is_closed() {
                StageState::Draining
            } else {
                StageState::Running
            },
        }
    }

    /// No stage has gone back from `before` to here.
    pub open spec fn phases_follow(&self, before: Self) -> bool {
        forall|st: Stage| rank(#[trigger] self.phase(st)) >= rank(before.phase(st))
    }

    /// Every stage has reached its end: all channels closed and drained,
    /// nothing held, everything produced.
    pub closed spec fn finished(&self) -> bool {
        &&& self.next > self.config.num_records
        &&& self.input.is_closed() && self.input.items().len() == 0
        &&& self.s1_to_s2.is_closed() && self.s1_to_s2.items().len() == 0
        &&& self.feedback.is_closed() && self.feedback.items().len() == 0
        &&& self.s2_to_s3.is_closed() && self.s2_to_s3.items().len() == 0
        &&& self.s1_hold is None && self.s2_fwd is None && self.s2_fb is None
        &&& self.backlog@.len() == 0
    }

    pub closed spec fn wf(&self) -> bool {
        let e = self.config.feedback_every;
        let b = self.config.channel_bound;
        &&& b >= 1
        &&& self.input.wf() && self.input.capacity() == b
        &&& self.s1_to_s2.wf() && self.s1_to_s2.capacity() == b
        &&& self.s2_to_s3.wf() && self.s2_to_s3.capacity() == b
        &&& self.feedback.wf() && self.feedback.capacity() == b
        &&& 1 <= self.next <= self.config.num_records + 1
        &&& self.all_ids() == id_range((self.next - 1) as nat)
        &&& self.in_flight_len() == self.next - 1
        &&& opt_stamped(self.s1_hold)
        &&& all_stamped(self.s1_to_s2.items())
        &&& opt_stamped(self.s2_fb)
        &&& all_stamped(self.feedback.items())
        &&& all_stamped(self.backlog@)
        &&& opt_sealed(self.s2_fwd)
        &&& all_sealed(self.s2_to_s3.items())
        &&& all_sealed(self.results@)
        &&& self.awaiting == owed(self.s1_to_s2.items(), e) + opt_len(self.s2_fb)
            + self.feedback.items().len()
        &&& self.input.is_closed() ==> self.next > self.config.num_records
        &&& self.s1_to_s2.is_closed() ==> {
            &&& self.input.is_closed() && self.input.items().len() == 0
            &&& self.s1_hold is None && self.backlog@.len() == 0 && self.awaiting == 0
        }
        &&& self.feedback.is_closed() == self.s2_to_s3.is_closed()
        &&& self.feedback.is_closed() ==> {
            &&& self.s1_to_s2.is_closed() && self.s1_to_s2.items().len() == 0
            &&& self.s2_fwd is None && self.s2_fb is None
        }
    }

    /// A run that has not started: empty, open channels of the configured
    /// capacity.
    pub fn new(config: PipelineConfig) -> (p: Self)
        requires
            config.channel_bound >= 1,
        ensures
            p.wf(),
            p.config() == config,
            p.collected() == Seq::<Record>::empty(),
            p.remaining_work() == 11 * config.num_records + 3,
    {
        let b = config.channel_bound;
        let p = Pipeline {
            config,
            next: 1,
            input: BoundedChannel::new(b),
            s1_to_s2: BoundedChannel::new(b),
            s2_to_s3: BoundedChannel::new(b),
            feedback: BoundedChannel::new(b),
            s1_hold: None,
            backlog: Vec::new(),
            awaiting: 0,
            s2_fwd: None,
            s2_fb: None,
            results: Vec::new(),
        };
        assert(p.all_ids() =~= id_range(0));
        p
    }

    /// Stage 3 takes the oldest record on its input into the results.
    fn stage3_take(&mut self)
        requires
            old(self).wf(),
            old(self).s2_to_s3.items().len() > 0,
        ensures
            final(self).wf(),
            final(self).config() == old(self).config(),
            final(self).remaining_work() < old(self).remaining_work(),
            final(self).phases_follow(*old(self)),
    {
        let ghost q = self.s2_to_s3.items();
        proof {
            lemma_front(q, self.config.feedback_every);
        }
        match self.s2_to_s3.recv() {
            Recv::Item(r) => {
                proof {
                    lemma_push(self.results@, r, self.config.feedback_every);
                }
                self.results.push(r);
            },
            _ => {},
        }
        assert(self.all_ids() =~= old(self).all_ids());
    }

    /// Stage 2 forwards the record it finished.
    fn stage2_forward(&mut self)
        requires
            old(self).wf(),
            old(self).s2_fwd is Some,
            old(self).s2_to_s3.has_room(),
        ensures
            final(self).wf(),
            final(self).config() == old(self).config(),
            final(self).remaining_work() < old(self).remaining_work(),
            final(self).phases_follow(*old(self)),
    {
        if let Some(r) = self.s2_fwd {
            proof {
                lemma_push(self.s2_to_s3.items(), r, self.config.feedback_every);
            }
            let _sent = self.s2_to_s3.try_send(r);
            self.s2_fwd = None;
        }
        assert(self.all_ids() =~= old(self).all_ids());
    }

    /// Stage 2 sends back the record it marked for another pass.
    fn stage2_send_back(&mut self)
        requires
            old(self).wf(),
            old(self).s2_fb is Some,
            old(self).feedback.has_room(),
        ensures
            final(self).wf(),
            final(self).config() == old(self).config(),
            final(self).remaining_work() < old(self).remaining_work(),
            final(self).phases_follow(*old(self)),
    {
        if let Some(r) = self.s2_fb {
            proof {
                lemma_push(self.feedback.items(), r, self.config.feedback_every);
            }
            let _sent = self.feedback.try_send(r);
            self.s2_fb = None;
        }
        assert(self.all_ids() =~= old(self).all_ids());
    }

    /// Stage 1 takes the oldest record on the feedback channel into its
    /// backlog.
    fn stage1_take_feedback(&mut self)
        requires
            old(self).wf(),
            old(self).feedback.items().len() > 0,
        ensures
            final(self).wf(),
            final(self).config() == old(self).config(),
            final(self).remaining_work() < old(self).remaining_work(),
            final(self).phases_follow(*old(self)),
    {
        let ghost q = self.feedback.items();
        proof {
            lemma_front(q, self.config.feedback_every);
        }
        match self.feedback.recv() {
            Recv::Item(r) => {
                proof {
                    lemma_push(self.backlog@, r, self.config.feedback_every);
                }
                self.backlog.push(r);
                self.awaiting = self.awaiting - 1;
            },
            _ => {},
        }
        assert(self.all_ids() =~= old(self).all_ids());
    }

    /// Stage 1 forwards the record it processed.
    fn stage1_forward(&mut self)
        requires
            old(self).wf(),
            old(self).s1_hold is Some,
            old(self).s1_to_s2.has_room(),
        ensures
            final(self).wf(),
            final(self).config() == old(self).config(),
            final(self).remaining_work() < old(self).remaining_work(),
            final(self).phases_follow(*old(self)),
    {
        proof {
            lemma_owed_le_len(self.s1_to_s2.items(), self.config.feedback_every);
        }
        if let Some(r) = self.s1_hold {
            proof {
                lemma_push(self.s1_to_s2.items(), r, self.config.feedback_every);
            }
            let back = route_back(&r, self.config.feedback_every);
            let _sent = self.s1_to_s2.try_send(r);
            self.s1_hold = None;
            if back {
                self.awaiting = self.awaiting + 1;
            }
        }
        assert(self.all_ids() =~= old(self).all_ids());
    }

    /// Stage 2 takes the oldest record on its input and either finishes it
    /// or marks it to go back.
    fn stage2_take(&mut self)
        requires
            old(self).wf(),
            old(self).s2_fwd is None,
            old(self).s2_fb is None,
            old(self).s1_to_s2.items().len() > 0,
        ensures
            final(self).wf(),
            final(self).config() == old(self).config(),
            final(self).remaining_work() < old(self).remaining_work(),
            final(self).phases_follow(*old(self)),
    {
        let ghost q = self.s1_to_s2.items();
        proof {
            lemma_front(q, self.config.feedback_every);
        }
        assert(q[0].value == stamped(q[0].id));
        match self.s1_to_s2.recv() {
            Recv::Item(r) => {
                if route_back(&r, self.config.feedback_every) {
                    self.s2_fb = Some(mark_retried(r));
                } else {
                    self.s2_fwd = Some(stage2_finish(r));
                }
            },
            _ => {},
        }
        assert(self.all_ids() =~= old(self).all_ids());
    }

    /// Stage 1 reprocesses a record from its backlog.
    fn stage1_take_backlog(&mut self)
        requires
            old(self).wf(),
            old(self).s1_hold is None,
            old(self).backlog@.len() > 0,
        ensures
            final(self).wf(),
            final(self).config() == old(self).config(),
            final(self).remaining_work() < old(self).remaining_work(),
            final(self).phases_follow(*old(self)),
    {
        match self.backlog.pop() {
            Some(r) => {
                self.s1_hold = Some(stage1_process(r));
            },
            None => {},
        }
        assert(self.all_ids() =~= old(self).all_ids());
    }

    /// Stage 1 takes and processes the oldest record on its input.
    fn stage1_take_input(&mut self)
        requires
            old(self).wf(),
            old(self).s1_hold is None,
            old(self).input.items().len() > 0,
        ensures
            final(self).wf(),
            final(self).config() == old(self).config(),
            final(self).remaining_work() < old(self).remaining_work(),
            final(self).phases_follow(*old(self)),
    {
        let ghost q = self.input.items();
        proof {
            lemma_front(q, self.config.feedback_every);
        }
        match self.input.recv() {
            Recv::Item(r) => {
                self.s1_hold = Some(stage1_process(r));
            },
            _ => {},
        }
        assert(self.all_ids() =~= old(self).all_ids());
    }

    /// The producer sends the next record.
    fn produce(&mut self)
        requires
            old(self).wf(),
            old(self).next <= old(self).config.num_records,
            old(self).input.has_room(),
        ensures
            final(self).wf(),
            final(self).config() == old(self).config(),
            final(self).remaining_work() < old(self).remaining_work(),
            final(self).phases_follow(*old(self)),
    {
        let r = Record::new(self.next as u32);
        proof {
            lemma_push(self.input.items(), r, self.config.feedback_every);
        }
        let _sent = self.input.try_send(r);
        self.next = self.next + 1;
        assert(self.all_ids() =~= old(self).all_ids().insert(r.id));
    }

    /// The producer closes the input once every record is sent.
    fn close_input(&mut self)
        requires
            old(self).wf(),
            old(self).next > old(self).config.num_records,
            !old(self).input.is_closed(),
        ensures
            final(self).wf(),
            final(self).config() == old(self).config(),
            final(self).remaining_work() < old(self).remaining_work(),
            final(self).phases_follow(*old(self)),
    {
        self.input.close();
    }

    /// Stage 1 closes its output: its input is exhausted, it holds nothing,
    /// and no record it forwarded will come back.
    fn stage1_close(&mut self)
        requires
            old(self).wf(),
            old(self).input.is_closed(),
            old(self).input.items().len() == 0,
            old(self).s1_hold is None,
            old(self).backlog@.len() == 0,
            old(self).awaiting == 0,
            !old(self).s1_to_s2.is_closed(),
        ensures
            final(self).wf(),
            final(self).config() == old(self).config(),
            final(self).remaining_work() < old(self).remaining_work(),
            final(self).phases_follow(*old(self)),
    {
        self.s1_to_s2.close();
    }

    /// Stage 2 closes the feedback channel and its output: its input is
    /// exhausted and it holds nothing.
    fn stage2_close(&mut self)
        requires
            old(self).wf(),
            old(self).s1_to_s2.is_closed(),
            old(self).s1_to_s2.items().len() == 0,
            old(self).s2_fwd is None,
            old(self).s2_fb is None,
            !old(self).feedback.is_closed(),
        ensures
            final(self).wf(),
            final(self).config() == old(self).config(),
            final(self).remaining_work() < old(self).remaining_work(),
            final(self).phases_follow(*old(self)),
    {
        self.feedback.close();
        self.s2_to_s3.close();
    }

    /// One step of the run: some stage that can move does. A run that is not
    /// finished always has such a stage, so no state of a run is stuck; and
    /// no stage goes back to an earlier state.
    pub fn step(&mut self)
        requires
            old(self).wf(),
            !old(self).finished(),
        ensures
            final(self).wf(),
            final(self).config() == old(self).config(),
            final(self).remaining_work() < old(self).remaining_work(),
            final(self).phases_follow(*old(self)),
    {
        let n = self.config.num_records as u64;
        if !self.s2_to_s3.is_empty() {
            self.stage3_take();
        } else if self.s2_fwd.is_some() && self.s2_to_s3.can_send() {
            self.stage2_forward();
        } else if self.s2_fb.is_some() && self.feedback.can_send() {
            self.stage2_send_back();
        } else if !self.feedback.is_empty() {
            self.stage1_take_feedback();
        } else if self.s1_hold.is_some() && self.s1_to_s2.can_send() {
            self.stage1_forward();
        } else if self.s2_fwd.is_none() && self.s2_fb.is_none() && !self.s1_to_s2.is_empty() {
            self.stage2_take();
        } else if self.s1_hold.is_none() && self.backlog.len() > 0 {
            self.stage1_take_backlog();
        } else if self.s1_hold.is_none() && !self.input.is_empty() {
            self.stage1_take_input();
        } else if self.next <= n && self.input.can_send() {
            self.produce();
        } else if self.next > n && !self.input.closed() {
            self.close_input();
        } else if self.input.closed() && self.input.is_empty() && self.s1_hold.is_none()
            && self.backlog.len() == 0 && self.awaiting == 0 && !self.s1_to_s2.closed() {
            self.stage1_close();
        } else if self.s1_to_s2.closed() && self.s1_to_s2.is_empty() && self.s2_fwd.is_none()
            && self.s2_fb.is_none() && !self.feedback.closed() {
            self.stage2_close();
        } else {
            proof {
                lemma_owed_le_len(self.s1_to_s2.items(), self.config.feedback_every);
            }
            assert(self.finished());
        }
    }

    proof fn lemma_finished_results(&self)
        requires
            self.wf(),
            self.finished(),
        ensures
            ids(self.results@) == id_range(self.config.num_records as nat),
            self.results@.len() == self.config.num_records,
            all_sealed(self.results@),
    {
        assert(ids(self.input.items()) =~= Multiset::empty());
        assert(ids(self.s1_to_s2.items()) =~= Multiset::empty());
        assert(ids(self.s2_to_s3.items()) =~= Multiset::empty());
        assert(ids(self.feedback.items()) =~= Multiset::empty());
        assert(ids(self.backlog@) =~= Multiset::empty());
        assert(self.all_ids() =~= ids(self.results@));
    }

    /// A finished run has every stage done.
    pub proof fn lemma_finished_all_done(&self)
        requires
            self.wf(),
            self.finished(),
        ensures
            forall|st: Stage| #[trigger] self.phase(st) == StageState::Done,
    {
    }

    proof fn lemma_work_nonnegative(&self)
        requires
            self.wf(),
        ensures
            self.remaining_work() >= 0,
    {
    }

    /// The records collected by stage 3.
    pub fn into_results(self) -> (r: Vec<Record>)
        ensures
            r@ == self.collected(),
    {
        self.results
    }

    pub fn stage_state(&self, stage: Stage) -> (r: StageState)
        requires
            self.wf(),
        ensures
            r == self.phase(stage),
    {
        match stage {
            Stage::First => if self.s1_to_s2.closed() && self.feedback.closed()
                && self.feedback.is_empty() {
                StageState::Done
            } else if self.input.closed() {
                StageState::Draining
            } else {
                StageState::Running
            },
            Stage::Second => if self.feedback.closed() && self.s2_to_s3.closed() {
                StageState::Done
            } else if self.s1_to_s2.closed() {
                StageState::Draining
            } else {
                StageState::Running
            },
            Stage::Third => if self.s2_to_s3.closed() && self.s2_to_s3.is_empty() {
                StageState::Done
            } else if self.s2_to_s3.closed() {
                StageState::Draining
            } else {
                StageState::Running
            },
        }
    }

    pub fn is_done(&self) -> (b: bool)
        requires
            self.wf(),
        ensures
            b == self.finished(),
    {
        self.next > self.config.num_records as u64 && self.input.closed() && self.input.is_empty()
            && self.s1_to_s2.closed() && self.s1_to_s2.is_empty() && self.feedback.closed()
            && self.feedback.is_empty() && self.s2_to_s3.closed() && self.s2_to_s3.is_empty()
            && self.s1_hold.is_none() && self.s2_fwd.is_none() && self.s2_fb.is_none()
            && self.backlog.len() == 0
    }
}

/// Run the pipeline to its end and count the steps taken: the run ends
/// within `11 * N + 3` steps. Each step strictly lowers `remaining_work`,
/// whichever stage moves, and a run starts with `11 * N + 3` of it.
pub fn run_pipeline_steps(config: PipelineConfig) -> (r: (Vec<Record>, u64))
    requires
        config.channel_bound >= 1,
    ensures
        r.1 <= 11 * config.num_records + 3,
        r.0@.len() == config.num_records,
        ids(r.0@) == id_range(config.num_records as nat),
        all_sealed(r.0@),
{
    let mut p = Pipeline::new(config);
    let mut steps: u64 = 0;
    while !p.is_done()
        invariant
            p.wf(),
            p.config() == config,
            steps + p.remaining_work() <= 11 * config.num_records + 3,
        decreases p.remaining_work(),
    {
        proof {
            p.lemma_work_nonnegative();
        }
        p.step();
        proof {
            p.lemma_work_nonnegative();
        }
        steps = steps + 1;
    }
    proof {
        p.lemma_finished_results();
    }
    (p.into_results(), steps)
}

/// Run the pipeline: records with ids `1..=N` go in, and every one of them
/// comes out exactly once, fully processed, whichever records take the
/// feedback path.
pub fn run_pipeline(config: PipelineConfig) -> (r: Vec<Record>)
    requires
        config.channel_bound >= 1,
    ensures
        r@.len() == config.num_records,
        forall|x: u32|
            ids(r@).count(x) == (if 1 <= x <= config.num_records {
                1nat
            } else {
                0nat
            }),
        forall|i: int| 0 <= i < r@.len() ==> #[trigger] r@[i].value == checksum(r@[i].id),
{
    let (r, _steps) = run_pipeline_steps(config);
    proof {
        assert forall|x: u32|
            ids(r@).count(x) == (if 1 <= x <= config.num_records {
                1nat
            } else {
                0nat
            }) by {
            lemma_id_range_count(config.num_records as nat, x);
        }
    }
    r
}

} // verus!
