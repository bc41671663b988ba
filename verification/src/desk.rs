//! What lies between the pipe and the workers: the jobs that wait, and the answers that
//! are not written yet, each in the order in which they came.
//!
//! The caller shares a `Desk` between the thread that owns the pipe and the workers.
use crate::answer::{
    answer, answer_ends_once, answer_frames, cue_views, end_frame, frame_views, keep_cues, kept, text_frame,
    timing_frame, Cue, CueView,
};
use crate::frame::{Frame, FrameView, FRAME_AUDIO, FRAME_CONVERT_END};
use crate::ipc::{
    after, convert_flag, convert_language, convert_ts, request_and_audio_make_a_job, ActionView, EventView, Job, JobView,
    PhaseView, SessionView,
};
use std::collections::VecDeque;
use vstd::prelude::*;

verus! {

/// The jobs that no worker has taken, and the answers that are not written.
pub struct Desk {
    pub waiting: VecDeque<Job>,
    pub answers: VecDeque<Vec<Frame>>,
}

pub struct DeskView {
    pub waiting: Seq<JobView>,
    pub answers: Seq<Seq<FrameView>>,
}

impl View for Desk {
    type V = DeskView;

    open spec fn view(&self) -> DeskView {
        DeskView {
            waiting: Seq::new(self.waiting@.len(), |i: int| self.waiting@[i]@),
            answers: Seq::new(self.answers@.len(), |i: int| frame_views(self.answers@[i]@)),
        }
    }
}

/// What became of a job: the seek epoch when it was taken, the cues if transcription gave
/// any, and the epoch after.
pub struct Finding {
    pub epoch_before: u32,
    pub transcribed: Option<Seq<CueView>>,
    pub epoch_after: u32,
}

/// The frames that answer a job.
pub open spec fn answer_to(job: JobView, finding: Finding) -> Seq<FrameView> {
    answer_frames(
        job,
        kept(job.status, finding.epoch_before, finding.transcribed, finding.epoch_after),
    )
}

impl DeskView {
    /// The desk with a job behind those that wait.
    pub open spec fn with_job(self, job: JobView) -> DeskView {
        DeskView { waiting: self.waiting.push(job), ..self }
    }

    /// The desk without the job that has waited longest.
    pub open spec fn without_first_job(self) -> DeskView {
        DeskView { waiting: self.waiting.drop_first(), ..self }
    }

    /// The desk with an answer behind those that are there.
    pub open spec fn with_answer(self, answer: Seq<FrameView>) -> DeskView {
        DeskView { answers: self.answers.push(answer), ..self }
    }

    /// The desk without its oldest answer.
    pub open spec fn without_first_answer(self) -> DeskView {
        DeskView { answers: self.answers.drop_first(), ..self }
    }
}

impl Desk {
    /// An empty desk.
    pub fn new() -> (r: Desk)
        ensures
            r@ == (DeskView { waiting: seq![], answers: seq![] }),
    {
        let r = Desk { waiting: VecDeque::new(), answers: VecDeque::new() };
        assert(r@.waiting =~= seq![]);
        assert(r@.answers =~= seq![]);
        r
    }

    /// A job comes in.
    pub fn receive(&mut self, job: Job)
        ensures
            final(self)@ == old(self)@.with_job(job@),
    {
        self.waiting.push_back(job);
        assert(self@.waiting =~= old(self)@.waiting.push(job@));
        assert(self@.answers =~= old(self)@.answers);
    }

    /// A worker takes the job that has waited longest.
    pub fn take(&mut self) -> (r: Option<Job>)
        ensures
            match r {
                Some(job) => old(self)@.waiting.len() > 0 && job@ == old(self)@.waiting[0]
                    && final(self)@ == old(self)@.without_first_job(),
                None => old(self)@.waiting.len() == 0 && final(self)@ == old(self)@,
            },
    {
        let r = self.waiting.pop_front();
        assert(self@.answers =~= old(self)@.answers);
        proof {
            if r is Some {
                assert(self@.waiting =~= old(self)@.waiting.drop_first());
            } else {
                assert(self@.waiting =~= old(self)@.waiting);
            }
        }
        r
    }

    /// A worker is done with a job: its answer is laid behind the others.
    pub fn finish(
        &mut self,
        job: &Job,
        epoch_before: u32,
        transcribed: Option<Vec<Cue>>,
        epoch_after: u32,
    )
        ensures
            final(self)@ == old(self)@.with_answer(
                answer_to(
                    job@,
                    Finding {
                        epoch_before,
                        transcribed: match transcribed {
                            Some(cues) => Some(cue_views(cues@)),
                            None => None,
                        },
                        epoch_after,
                    },
                ),
            ),
    {
        let cues = keep_cues(job.status, epoch_before, transcribed, epoch_after);
        let frames = answer(job, cues.as_slice());
        self.answers.push_back(frames);
        assert(self@.answers =~= old(self)@.answers.push(frame_views(frames@)));
        assert(self@.waiting =~= old(self)@.waiting);
    }

    /// The oldest answer goes out.
    pub fn collect(&mut self) -> (r: Option<Vec<Frame>>)
        ensures
            match r {
                Some(frames) => old(self)@.answers.len() > 0 && frame_views(frames@) == old(
                    self,
                )@.answers[0] && final(self)@ == old(self)@.without_first_answer(),
                None => old(self)@.answers.len() == 0 && final(self)@ == old(self)@,
            },
    {
        let r = self.answers.pop_front();
        assert(self@.waiting =~= old(self)@.waiting);
        proof {
            if r is Some {
                assert(self@.answers =~= old(self)@.answers.drop_first());
            } else {
                assert(self@.answers =~= old(self)@.answers);
            }
        }
        r
    }
}

/// A session with its desk and a single worker. `queued` and `found` record the jobs that
/// came and what became of those that are done; `written` are the answers that went out.
pub struct Service {
    pub session: SessionView,
    pub desk: DeskView,
    pub working: Option<JobView>,
    pub queued: Seq<JobView>,
    pub found: Seq<Finding>,
    pub written: Seq<Seq<FrameView>>,
}

/// What happens to a service.
pub enum ServiceEvent {
    /// Something happened on the pipe.
    Pipe(EventView),
    /// The worker looks for a job.
    Take,
    /// The worker is done with its job.
    Finish(Finding),
    /// The oldest answer is written.
    Write,
}

impl Service {
    /// A service on which nothing has come yet.
    pub open spec fn fresh(session: SessionView) -> Service {
        Service {
            session,
            desk: DeskView { waiting: seq![], answers: seq![] },
            working: None,
            queued: seq![],
            found: seq![],
            written: seq![],
        }
    }

    /// The service after an event. A job that the session queues is laid on the desk; the
    /// worker takes a job only when it has none.
    pub open spec fn next(self, event: ServiceEvent) -> Service {
        match event {
            ServiceEvent::Pipe(e) => {
                let (session, action) = self.session.next(e);
                match action {
                    ActionView::Queue(job) => Service {
                        session,
                        desk: self.desk.with_job(job),
                        queued: self.queued.push(job),
                        ..self
                    },
                    _ => Service { session, ..self },
                }
            },
            ServiceEvent::Take => if self.working is None && self.desk.waiting.len() > 0 {
                Service {
                    working: Some(self.desk.waiting[0]),
                    desk: self.desk.without_first_job(),
                    ..self
                }
            } else {
                self
            },
            ServiceEvent::Finish(finding) => match self.working {
                Some(job) => Service {
                    working: None,
                    desk: self.desk.with_answer(answer_to(job, finding)),
                    found: self.found.push(finding),
                    ..self
                },
                None => self,
            },
            ServiceEvent::Write => if self.desk.answers.len() > 0 {
                Service {
                    written: self.written.push(self.desk.answers[0]),
                    desk: self.desk.without_first_answer(),
                    ..self
                }
            } else {
                self
            },
        }
    }

    /// The service after a run of events.
    pub open spec fn after(self, events: Seq<ServiceEvent>) -> Service
        decreases events.len(),
    {
        if events.len() == 0 {
            self
        } else {
            self.after(events.drop_last()).next(events.last())
        }
    }

    /// The job in work, if there is one, and those that wait.
    pub open spec fn unanswered(self) -> Seq<JobView> {
        match self.working {
            Some(job) => seq![job] + self.desk.waiting,
            None => self.desk.waiting,
        }
    }

    /// The answers are those to the first jobs that came, one each and in their order;
    /// the other jobs are still to be answered.
    pub open spec fn in_order(self) -> bool {
        &&& self.found.len() <= self.queued.len()
        &&& self.written + self.desk.answers == Seq::new(
            self.found.len(),
            |i: int| answer_to(self.queued[i], self.found[i]),
        )
        &&& self.queued.skip(self.found.len() as int) == self.unanswered()
    }

    /// Nothing waits, is in work or is unwritten.
    pub open spec fn idle(self) -> bool {
        &&& self.working is None
        &&& self.desk.waiting.len() == 0
        &&& self.desk.answers.len() == 0
    }
}

proof fn pipe_keeps_order(s: Service, event: EventView)
    requires
        s.in_order(),
    ensures
        s.next(ServiceEvent::Pipe(event)).in_order(),
{
    let t = s.next(ServiceEvent::Pipe(event));
    if let ActionView::Queue(job) = s.session.next(event).1 {
        let n = s.found.len() as int;
        assert(t.queued.skip(n) =~= s.queued.skip(n).push(job));
        assert(t.unanswered() =~= s.unanswered().push(job));
        assert(t.written + t.desk.answers =~= Seq::new(
            t.found.len(),
            |i: int| answer_to(t.queued[i], t.found[i]),
        )) by {
            assert forall|i: int| 0 <= i < n implies (s.written + s.desk.answers)[i] == answer_to(
                t.queued[i],
                t.found[i],
            ) by {
                assert(t.queued[i] == s.queued[i]);
            }
        }
    }
}

proof fn finish_keeps_order(s: Service, finding: Finding)
    requires
        s.in_order(),
    ensures
        s.next(ServiceEvent::Finish(finding)).in_order(),
{
    let t = s.next(ServiceEvent::Finish(finding));
    if let Some(job) = s.working {
        let n = s.found.len() as int;
        assert(s.queued.skip(n) == seq![job] + s.desk.waiting);
        assert(s.queued.skip(n)[0] == job);
        assert(s.queued[n] == job);
        assert(t.queued.skip(n + 1) =~= s.queued.skip(n).drop_first());
        assert(t.unanswered() =~= s.desk.waiting);
        assert(s.queued.skip(n).drop_first() =~= s.desk.waiting);
        let before = s.written + s.desk.answers;
        assert(t.written + t.desk.answers =~= before.push(answer_to(job, finding)));
        let expected = Seq::new(t.found.len(), |i: int| answer_to(t.queued[i], t.found[i]));
        assert forall|i: int| 0 <= i < n + 1 implies before.push(answer_to(job, finding))[i]
            == expected[i] by {
            if i < n {
                assert(t.found[i] == s.found[i]);
                assert(before[i] == answer_to(s.queued[i], s.found[i]));
            }
        }
        assert(t.written + t.desk.answers =~= expected);
    }
}

proof fn event_keeps_order(s: Service, event: ServiceEvent)
    requires
        s.in_order(),
    ensures
        s.next(event).in_order(),
{
    let t = s.next(event);
    match event {
        ServiceEvent::Pipe(e) => pipe_keeps_order(s, e),
        ServiceEvent::Take => {
            assert(t.unanswered() =~= s.unanswered());
        },
        ServiceEvent::Finish(finding) => finish_keeps_order(s, finding),
        ServiceEvent::Write => {
            assert(t.written + t.desk.answers =~= s.written + s.desk.answers);
        },
    }
}

/// With a single worker, requests are answered in the order in which they were received,
/// each once: at every moment the answers are those to the first requests.
pub proof fn requests_are_answered_in_order(session: SessionView, events: Seq<ServiceEvent>)
    ensures
        Service::fresh(session).after(events).in_order(),
    decreases events.len(),
{
    let s = Service::fresh(session);
    if events.len() == 0 {
        assert(s.queued.skip(0) =~= s.unanswered());
        assert(s.written + s.desk.answers =~= Seq::new(
            s.found.len(),
            |i: int| answer_to(s.queued[i], s.found[i]),
        ));
    } else {
        requests_are_answered_in_order(session, events.drop_last());
        event_keeps_order(s.after(events.drop_last()), events.last());
    }
}

/// Once a single worker has nothing left to do, every request has its answer: in the
/// place of the request, the timing and the text of each cue in turn, and then, once, its
/// CONVERT_END with its language.
pub proof fn every_request_is_answered_once(session: SessionView, events: Seq<ServiceEvent>)
    requires
        Service::fresh(session).after(events).idle(),
    ensures
        ({
            let s = Service::fresh(session).after(events);
            &&& s.written.len() == s.queued.len() == s.found.len()
            &&& forall|i: int|
                #![trigger s.written[i]]
                0 <= i < s.queued.len() ==> {
                    let cues = kept(
                        s.queued[i].status,
                        s.found[i].epoch_before,
                        s.found[i].transcribed,
                        s.found[i].epoch_after,
                    );
                    &&& s.written[i].len() == 2 * cues.len() + 1
                    &&& s.written[i].last() == end_frame(s.queued[i].language)
                    &&& forall|k: int|
                        0 <= k < 2 * cues.len() ==> (#[trigger] s.written[i][k]).code
                            != FRAME_CONVERT_END
                    &&& forall|k: int|
                        #![trigger cues[k]]
                        0 <= k < cues.len() ==> s.written[i][2 * k] == timing_frame(
                            s.queued[i],
                            cues[k],
                        ) && s.written[i][2 * k + 1] == text_frame(cues[k])
                }
        }),
{
    requests_are_answered_in_order(session, events);
    let s = Service::fresh(session).after(events);
    assert(s.queued.skip(s.found.len() as int).len() == 0);
    assert(s.written + s.desk.answers =~= s.written);
    assert forall|i: int| #![trigger s.written[i]] 0 <= i < s.queued.len() implies s.written[i]
        == answer_to(s.queued[i], s.found[i]) by {}
    assert forall|i: int| #![trigger s.written[i]] 0 <= i < s.queued.len() implies {
        let cues = kept(
            s.queued[i].status,
            s.found[i].epoch_before,
            s.found[i].transcribed,
            s.found[i].epoch_after,
        );
        &&& s.written[i].len() == 2 * cues.len() + 1
        &&& s.written[i].last() == end_frame(s.queued[i].language)
        &&& forall|k: int|
            0 <= k < 2 * cues.len() ==> (#[trigger] s.written[i][k]).code != FRAME_CONVERT_END
        &&& forall|k: int|
            #![trigger cues[k]]
            0 <= k < cues.len() ==> s.written[i][2 * k] == timing_frame(s.queued[i], cues[k])
                && s.written[i][2 * k + 1] == text_frame(cues[k])
    } by {
        let cues = kept(
            s.queued[i].status,
            s.found[i].epoch_before,
            s.found[i].transcribed,
            s.found[i].epoch_after,
        );
        answer_ends_once(s.queued[i], cues);
    }
}

/// What happened on the pipe in a run of events.
pub open spec fn pipe_events(events: Seq<ServiceEvent>) -> Seq<EventView>
    decreases events.len(),
{
    if events.len() == 0 {
        seq![]
    } else {
        let before = pipe_events(events.drop_last());
        match events.last() {
            ServiceEvent::Pipe(e) => before.push(e),
            _ => before,
        }
    }
}

/// The jobs that a session queues in a run of events on the pipe.
pub open spec fn jobs_queued(s: SessionView, events: Seq<EventView>) -> Seq<JobView>
    decreases events.len(),
{
    if events.len() == 0 {
        seq![]
    } else {
        let before = jobs_queued(s, events.drop_last());
        match after(s, events.drop_last()).next(events.last()).1 {
            ActionView::Queue(job) => before.push(job),
            _ => before,
        }
    }
}

/// The jobs of a service are those that its session queues, whatever the worker does.
pub proof fn service_follows_session(session: SessionView, events: Seq<ServiceEvent>)
    ensures
        Service::fresh(session).after(events).session == after(session, pipe_events(events)),
        Service::fresh(session).after(events).queued == jobs_queued(session, pipe_events(events)),
    decreases events.len(),
{
    if events.len() > 0 {
        service_follows_session(session, events.drop_last());
        if let ServiceEvent::Pipe(e) = events.last() {
            assert(pipe_events(events).drop_last() =~= pipe_events(events.drop_last()));
        }
    }
}

/// A request as the player sends it: a CONVERT frame and its audio.
pub struct Request {
    pub convert: FrameView,
    pub audio: FrameView,
}

impl Request {
    pub open spec fn well_formed(self) -> bool {
        SessionView::is_request(self.convert) && self.audio.code == FRAME_AUDIO
    }

    /// Whether a job is what the request asks for.
    pub open spec fn asks_for(self, job: JobView) -> bool {
        &&& job.language == convert_language(self.convert.body)
        &&& job.flag == convert_flag(self.convert.body)
        &&& job.ts_ms == convert_ts(self.convert.body)
        &&& job.audio == self.audio.body
    }
}

/// Requests as they come over the pipe.
pub open spec fn sent(requests: Seq<Request>) -> Seq<EventView>
    decreases requests.len(),
{
    if requests.len() == 0 {
        seq![]
    } else {
        sent(requests.drop_last()).push(EventView::Received(requests.last().convert)).push(
            EventView::Received(requests.last().audio),
        )
    }
}

/// Each request becomes a job, in the order in which the requests are sent.
pub proof fn requests_become_jobs(s: SessionView, requests: Seq<Request>)
    requires
        s.phase == PhaseView::Serving,
        forall|i: int| 0 <= i < requests.len() ==> (#[trigger] requests[i]).well_formed(),
    ensures
        after(s, sent(requests)).phase == PhaseView::Serving,
        jobs_queued(s, sent(requests)).len() == requests.len(),
        forall|i: int|
            0 <= i < requests.len() ==> (#[trigger] requests[i]).asks_for(
                jobs_queued(s, sent(requests))[i],
            ),
    decreases requests.len(),
{
    if requests.len() > 0 {
        let rest = requests.drop_last();
        let last = requests.last();
        assert(requests[requests.len() - 1].well_formed());
        assert forall|i: int| 0 <= i < rest.len() implies (#[trigger] rest[i]).well_formed() by {
            assert(requests[i].well_formed());
        }
        requests_become_jobs(s, rest);
        let events = sent(requests);
        let mid = events.drop_last();
        assert(mid =~= sent(rest).push(EventView::Received(last.convert)));
        assert(mid.drop_last() =~= sent(rest));
        request_and_audio_make_a_job(after(s, sent(rest)), last.convert, last.audio);
        assert(jobs_queued(s, mid) == jobs_queued(s, sent(rest)));
        let jobs = jobs_queued(s, events);
        assert(jobs.drop_last() =~= jobs_queued(s, sent(rest)));
        assert forall|i: int| 0 <= i < requests.len() implies (#[trigger] requests[i]).asks_for(
            jobs[i],
        ) by {
            if i < rest.len() {
                assert(rest[i].asks_for(jobs_queued(s, sent(rest))[i]));
                assert(jobs[i] == jobs_queued(s, sent(rest))[i]);
            }
        }
    }
}

/// What the player sees of a session with a single worker. It has sent requests, and the
/// worker has nothing left to do. Then there is one answer for each request, in the order
/// of the requests, and it ends with CONVERT_END in the language of its request and holds
/// no other CONVERT_END. This holds whenever the worker works and whatever it finds.
pub proof fn player_is_answered_in_order(
    session: SessionView,
    requests: Seq<Request>,
    events: Seq<ServiceEvent>,
)
    requires
        session.phase == PhaseView::Serving,
        forall|i: int| 0 <= i < requests.len() ==> (#[trigger] requests[i]).well_formed(),
        pipe_events(events) == sent(requests),
        Service::fresh(session).after(events).idle(),
    ensures
        ({
            let s = Service::fresh(session).after(events);
            &&& s.written.len() == requests.len()
            &&& forall|i: int|
                #![trigger s.written[i]]
                0 <= i < requests.len() ==> {
                    &&& s.written[i].len() > 0
                    &&& s.written[i].last() == end_frame(
                        convert_language(requests[i].convert.body),
                    )
                    &&& forall|k: int|
                        0 <= k < s.written[i].len() - 1 ==> (#[trigger] s.written[i][k]).code
                            != FRAME_CONVERT_END
                    &&& requests[i].asks_for(s.queued[i])
                    &&& s.written[i] == answer_to(s.queued[i], s.found[i])
                }
        }),
{
    let s = Service::fresh(session).after(events);
    service_follows_session(session, events);
    requests_become_jobs(session, requests);
    requests_are_answered_in_order(session, events);
    every_request_is_answered_once(session, events);
    assert(s.written + s.desk.answers =~= s.written);
    assert forall|i: int| #![trigger s.written[i]] 0 <= i < requests.len() implies {
        &&& s.written[i].len() > 0
        &&& s.written[i].last() == end_frame(convert_language(requests[i].convert.body))
        &&& forall|k: int|
            0 <= k < s.written[i].len() - 1 ==> (#[trigger] s.written[i][k]).code
                != FRAME_CONVERT_END
        &&& requests[i].asks_for(s.queued[i])
        &&& s.written[i] == answer_to(s.queued[i], s.found[i])
    } by {
        assert(requests[i].asks_for(s.queued[i]));
    }
}

} // verus!
