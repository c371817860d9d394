use vstd::prelude::*;

use crate::assoc::Assoc;
use crate::codec::{Codec, dec_at, lemma_dec_at, lemma_dec_at_span};
use crate::document::Document;

verus! {

/// Where a naming event stands.
#[derive(Debug, PartialEq)]
pub enum LoraxStage {
    Submission,
    Voting,
    Tiebreaker(usize),
    Completed,
    Inactive,
}

impl Codec for LoraxStage {
    type M = LoraxStage;

    open spec fn model(&self) -> LoraxStage {
        *self
    }

    open spec fn cinv(&self) -> bool {
        true
    }

    open spec fn enc(&self) -> Seq<u8> {
        match *self {
            LoraxStage::Submission => seq![0u8],
            LoraxStage::Voting => seq![1u8],
            LoraxStage::Tiebreaker(r) => seq![2u8] + r.enc(),
            LoraxStage::Completed => seq![3u8],
            LoraxStage::Inactive => seq![4u8],
        }
    }

    open spec fn dec(b: Seq<u8>) -> Option<(LoraxStage, int)> {
        if b.len() < 1 {
            None
        } else if b[0] == 0u8 {
            Some((LoraxStage::Submission, 1))
        } else if b[0] == 1u8 {
            Some((LoraxStage::Voting, 1))
        } else if b[0] == 2u8 {
            match dec_at::<usize>(b, 1) {
                Some((r, p)) => Some((LoraxStage::Tiebreaker(r), p)),
                None => None,
            }
        } else if b[0] == 3u8 {
            Some((LoraxStage::Completed, 1))
        } else if b[0] == 4u8 {
            Some((LoraxStage::Inactive, 1))
        } else {
            None
        }
    }

    proof fn lemma_dec_span(b: Seq<u8>) {
        lemma_dec_at_span::<usize>(b, 1);
    }

    proof fn lemma_dec_enc(&self, rest: Seq<u8>) {
        let w = self.enc() + rest;
        match *self {
            LoraxStage::Tiebreaker(r) => {
                assert(w[0] == 2u8);
                assert(w.subrange(1, 1 + r.enc().len() as int) =~= r.enc());
                lemma_dec_at::<usize>(r, w, 1);
            },
            _ => {
                assert(w[0] == self.enc()[0]);
            },
        }
    }

    fn write_bytes(&self, out: &mut Vec<u8>) {
        match self {
            LoraxStage::Submission => {
                out.push(0u8);
            },
            LoraxStage::Voting => {
                out.push(1u8);
            },
            LoraxStage::Tiebreaker(r) => {
                out.push(2u8);
                r.write_bytes(out);
            },
            LoraxStage::Completed => {
                out.push(3u8);
            },
            LoraxStage::Inactive => {
                out.push(4u8);
            },
        }
        proof {
            assert(final(out)@ =~= old(out)@ + self.enc());
        }
    }

    fn read_bytes(b: &[u8], pos: usize) -> (r: Option<(Self, usize)>) {
        let ghost w = b@.skip(pos as int);
        if b.len() - pos < 1 {
            return None;
        }
        let tag = b[pos];
        proof {
            assert(w[0] == b@[pos as int]);
        }
        if tag == 0 {
            Some((LoraxStage::Submission, pos + 1))
        } else if tag == 1 {
            Some((LoraxStage::Voting, pos + 1))
        } else if tag == 2 {
            match usize::read_bytes(b, pos + 1) {
                Some((r, p2)) => {
                    proof {
                        assert(w.skip(1) =~= b@.skip(pos + 1));
                    }
                    Some((LoraxStage::Tiebreaker(r), p2))
                },
                None => {
                    proof {
                        assert(w.skip(1) =~= b@.skip(pos + 1));
                    }
                    None
                },
            }
        } else if tag == 3 {
            Some((LoraxStage::Completed, pos + 1))
        } else if tag == 4 {
            Some((LoraxStage::Inactive, pos + 1))
        } else {
            None
        }
    }

    fn cclone(&self) -> (c: Self) {
        match self {
            LoraxStage::Submission => LoraxStage::Submission,
            LoraxStage::Voting => LoraxStage::Voting,
            LoraxStage::Tiebreaker(r) => LoraxStage::Tiebreaker(*r),
            LoraxStage::Completed => LoraxStage::Completed,
            LoraxStage::Inactive => LoraxStage::Inactive,
        }
    }
}

/// Per-guild configuration of the naming event.  Durations are minutes.
#[derive(Debug, PartialEq)]
pub struct LoraxSettings {
    pub lorax_channel: Option<u64>,
    pub lorax_role: Option<u64>,
    pub winner_role: Option<u64>,
    pub alumni_role: Option<u64>,
    pub submission_duration: u64,
    pub voting_duration: u64,
    pub tiebreaker_duration: u64,
}

impl LoraxSettings {
    /// The configuration a guild starts with.
    pub open spec fn spec_default() -> LoraxSettings {
        LoraxSettings {
            lorax_channel: None,
            lorax_role: None,
            winner_role: None,
            alumni_role: None,
            submission_duration: 60,
            voting_duration: 30,
            tiebreaker_duration: 15,
        }
    }
}

impl Default for LoraxSettings {
    fn default() -> (s: Self)
        ensures
            s == LoraxSettings::spec_default(),
    {
        LoraxSettings {
            lorax_channel: None,
            lorax_role: None,
            winner_role: None,
            alumni_role: None,
            submission_duration: 60,
            voting_duration: 30,
            tiebreaker_duration: 15,
        }
    }
}

impl Codec for LoraxSettings {
    type M = LoraxSettings;

    open spec fn model(&self) -> LoraxSettings {
        *self
    }

    open spec fn cinv(&self) -> bool {
        true
    }

    open spec fn enc(&self) -> Seq<u8> {
        self.lorax_channel.enc() + self.lorax_role.enc() + self.winner_role.enc()
            + self.alumni_role.enc() + self.submission_duration.enc() + self.voting_duration.enc()
            + self.tiebreaker_duration.enc()
    }

    open spec fn dec(b: Seq<u8>) -> Option<(LoraxSettings, int)> {
        match dec_at::<Option<u64>>(b, 0) {
            None => None,
            Some((lorax_channel, p1)) => match dec_at::<Option<u64>>(b, p1) {
                None => None,
                Some((lorax_role, p2)) => match dec_at::<Option<u64>>(b, p2) {
                    None => None,
                    Some((winner_role, p3)) => match dec_at::<Option<u64>>(b, p3) {
                        None => None,
                        Some((alumni_role, p4)) => match dec_at::<u64>(b, p4) {
                            None => None,
                            Some((submission_duration, p5)) => match dec_at::<u64>(b, p5) {
                                None => None,
                                Some((voting_duration, p6)) => match dec_at::<u64>(b, p6) {
                                    None => None,
                                    Some((tiebreaker_duration, p7)) => Some(
                                        (
                                            LoraxSettings {
                                                lorax_channel,
                                                lorax_role,
                                                winner_role,
                                                alumni_role,
                                                submission_duration,
                                                voting_duration,
                                                tiebreaker_duration,
                                            },
                                            p7,
                                        ),
                                    ),
                                },
                            },
                        },
                    },
                },
            },
        }
    }

    proof fn lemma_dec_span(b: Seq<u8>) {
        lemma_dec_at_span::<Option<u64>>(b, 0);
        if let Some((_, p1)) = dec_at::<Option<u64>>(b, 0) {
            lemma_dec_at_span::<Option<u64>>(b, p1);
            if let Some((_, p2)) = dec_at::<Option<u64>>(b, p1) {
                lemma_dec_at_span::<Option<u64>>(b, p2);
                if let Some((_, p3)) = dec_at::<Option<u64>>(b, p2) {
                    lemma_dec_at_span::<Option<u64>>(b, p3);
                    if let Some((_, p4)) = dec_at::<Option<u64>>(b, p3) {
                        lemma_dec_at_span::<u64>(b, p4);
                        if let Some((_, p5)) = dec_at::<u64>(b, p4) {
                            lemma_dec_at_span::<u64>(b, p5);
                            if let Some((_, p6)) = dec_at::<u64>(b, p5) {
                                lemma_dec_at_span::<u64>(b, p6);
                            }
                        }
                    }
                }
            }
        }
    }

    proof fn lemma_dec_enc(&self, rest: Seq<u8>) {
        let w = self.enc() + rest;
        let e1 = self.lorax_channel.enc();
        let e2 = self.lorax_role.enc();
        let e3 = self.winner_role.enc();
        let e4 = self.alumni_role.enc();
        let e5 = self.submission_duration.enc();
        let e6 = self.voting_duration.enc();
        let e7 = self.tiebreaker_duration.enc();
        let p1 = e1.len() as int;
        let p2 = p1 + e2.len();
        let p3 = p2 + e3.len();
        let p4 = p3 + e4.len();
        let p5 = p4 + e5.len();
        let p6 = p5 + e6.len();
        let p7 = p6 + e7.len();
        assert(w.subrange(0, p1) =~= e1);
        lemma_dec_at::<Option<u64>>(self.lorax_channel, w, 0);
        assert(w.subrange(p1, p2) =~= e2);
        lemma_dec_at::<Option<u64>>(self.lorax_role, w, p1);
        assert(w.subrange(p2, p3) =~= e3);
        lemma_dec_at::<Option<u64>>(self.winner_role, w, p2);
        assert(w.subrange(p3, p4) =~= e4);
        lemma_dec_at::<Option<u64>>(self.alumni_role, w, p3);
        assert(w.subrange(p4, p5) =~= e5);
        lemma_dec_at::<u64>(self.submission_duration, w, p4);
        assert(w.subrange(p5, p6) =~= e6);
        lemma_dec_at::<u64>(self.voting_duration, w, p5);
        assert(w.subrange(p6, p7) =~= e7);
        lemma_dec_at::<u64>(self.tiebreaker_duration, w, p6);
    }

    fn write_bytes(&self, out: &mut Vec<u8>) {
        self.lorax_channel.write_bytes(out);
        self.lorax_role.write_bytes(out);
        self.winner_role.write_bytes(out);
        self.alumni_role.write_bytes(out);
        self.submission_duration.write_bytes(out);
        self.voting_duration.write_bytes(out);
        self.tiebreaker_duration.write_bytes(out);
        proof {
            assert(final(out)@ =~= old(out)@ + self.enc());
        }
    }

    #[verifier::rlimit(100)]
    fn read_bytes(b: &[u8], pos: usize) -> (r: Option<(Self, usize)>) {
        let ghost w = b@.skip(pos as int);
        proof {
            assert(w.skip(0) =~= w);
        }
        let Some((lorax_channel, c1)) = <Option<u64> as Codec>::read_bytes(b, pos) else {
            return None;
        };
        proof {
            assert(w.skip(c1 - pos) =~= b@.skip(c1 as int));
        }
        let Some((lorax_role, c2)) = <Option<u64> as Codec>::read_bytes(b, c1) else {
            return None;
        };
        proof {
            assert(w.skip(c2 - pos) =~= b@.skip(c2 as int));
        }
        let Some((winner_role, c3)) = <Option<u64> as Codec>::read_bytes(b, c2) else {
            return None;
        };
        proof {
            assert(w.skip(c3 - pos) =~= b@.skip(c3 as int));
        }
        let Some((alumni_role, c4)) = <Option<u64> as Codec>::read_bytes(b, c3) else {
            return None;
        };
        proof {
            assert(w.skip(c4 - pos) =~= b@.skip(c4 as int));
        }
        let Some((submission_duration, c5)) = u64::read_bytes(b, c4) else {
            return None;
        };
        proof {
            assert(w.skip(c5 - pos) =~= b@.skip(c5 as int));
        }
        let Some((voting_duration, c6)) = u64::read_bytes(b, c5) else {
            return None;
        };
        proof {
            assert(w.skip(c6 - pos) =~= b@.skip(c6 as int));
        }
        let Some((tiebreaker_duration, c7)) = u64::read_bytes(b, c6) else {
            return None;
        };
        Some(
            (
                LoraxSettings {
                    lorax_channel,
                    lorax_role,
                    winner_role,
                    alumni_role,
                    submission_duration,
                    voting_duration,
                    tiebreaker_duration,
                },
                c7,
            ),
        )
    }

    fn cclone(&self) -> (c: Self) {
        LoraxSettings {
            lorax_channel: self.lorax_channel,
            lorax_role: self.lorax_role,
            winner_role: self.winner_role,
            alumni_role: self.alumni_role,
            submission_duration: self.submission_duration,
            voting_duration: self.voting_duration,
            tiebreaker_duration: self.tiebreaker_duration,
        }
    }
}

} // verus!

// ---- The event record ----

verus! {

/// Model of a naming event.
pub ghost struct LoraxEventM {
    pub stage: LoraxStage,
    pub settings: LoraxSettings,
    pub tree_submissions: Map<u64, Seq<char>>,
    pub tree_votes: Map<u64, Seq<char>>,
    pub eliminated_trees: Seq<Seq<char>>,
    pub start_time: u64,
    pub current_trees: Seq<Seq<char>>,
    pub campaign_message_id: Option<u64>,
    pub stage_message_id: Option<u64>,
    pub voting_message_id: Option<u64>,
    pub tiebreaker_message_id: Option<u64>,
    pub campaign_thread_id: Option<u64>,
}

/// One guild's naming event: submissions and votes keyed by user id.
#[derive(Debug)]
pub struct LoraxEvent {
    pub stage: LoraxStage,
    pub settings: LoraxSettings,
    pub tree_submissions: Assoc<String>,
    pub tree_votes: Assoc<String>,
    pub eliminated_trees: Vec<String>,
    pub start_time: u64,
    pub current_trees: Vec<String>,
    pub campaign_message_id: Option<u64>,
    pub stage_message_id: Option<u64>,
    pub voting_message_id: Option<u64>,
    pub tiebreaker_message_id: Option<u64>,
    pub campaign_thread_id: Option<u64>,
}

/// Decodes the leading fields of an event record.
pub open spec fn dec_event_head(b: Seq<u8>) -> Option<((LoraxStage, LoraxSettings, Map<u64, Seq<char>>, Map<u64, Seq<char>>, Seq<Seq<char>>, u64), int)> {
    match dec_at::<LoraxStage>(b, 0) {
        None => None,
        Some((stage, p1)) =>
        match dec_at::<LoraxSettings>(b, p1) {
            None => None,
            Some((settings, p2)) =>
            match dec_at::<Assoc<String>>(b, p2) {
                None => None,
                Some((tree_submissions, p3)) =>
                match dec_at::<Assoc<String>>(b, p3) {
                    None => None,
                    Some((tree_votes, p4)) =>
                    match dec_at::<Vec<String>>(b, p4) {
                        None => None,
                        Some((eliminated_trees, p5)) =>
                        match dec_at::<u64>(b, p5) {
                            None => None,
                            Some((start_time, p6)) =>
                            Some(((stage, settings, tree_submissions, tree_votes, eliminated_trees, start_time), p6)),
                        },
                    },
                },
            },
        },
    }
}

/// Decodes the trailing fields of an event record.
pub open spec fn dec_event_tail(b: Seq<u8>) -> Option<((Seq<Seq<char>>, Option<u64>, Option<u64>, Option<u64>, Option<u64>, Option<u64>), int)> {
    match dec_at::<Vec<String>>(b, 0) {
        None => None,
        Some((current_trees, p1)) =>
        match dec_at::<Option<u64>>(b, p1) {
            None => None,
            Some((campaign_message_id, p2)) =>
            match dec_at::<Option<u64>>(b, p2) {
                None => None,
                Some((stage_message_id, p3)) =>
                match dec_at::<Option<u64>>(b, p3) {
                    None => None,
                    Some((voting_message_id, p4)) =>
                    match dec_at::<Option<u64>>(b, p4) {
                        None => None,
                        Some((tiebreaker_message_id, p5)) =>
                        match dec_at::<Option<u64>>(b, p5) {
                            None => None,
                            Some((campaign_thread_id, p6)) =>
                            Some(((current_trees, campaign_message_id, stage_message_id, voting_message_id, tiebreaker_message_id, campaign_thread_id), p6)),
                        },
                    },
                },
            },
        },
    }
}

proof fn lemma_event_head_span(b: Seq<u8>)
    ensures
        dec_event_head(b) matches Some(p) ==> 0 <= p.1 <= b.len(),
{
    lemma_dec_at_span::<LoraxStage>(b, 0);
    if let Some((_, p1)) = dec_at::<LoraxStage>(b, 0) {
        lemma_dec_at_span::<LoraxSettings>(b, p1);
        if let Some((_, p2)) = dec_at::<LoraxSettings>(b, p1) {
            lemma_dec_at_span::<Assoc<String>>(b, p2);
            if let Some((_, p3)) = dec_at::<Assoc<String>>(b, p2) {
                lemma_dec_at_span::<Assoc<String>>(b, p3);
                if let Some((_, p4)) = dec_at::<Assoc<String>>(b, p3) {
                    lemma_dec_at_span::<Vec<String>>(b, p4);
                    if let Some((_, p5)) = dec_at::<Vec<String>>(b, p4) {
                        lemma_dec_at_span::<u64>(b, p5);
                    }
                }
            }
        }
    }
}

proof fn lemma_event_tail_span(b: Seq<u8>)
    ensures
        dec_event_tail(b) matches Some(p) ==> 0 <= p.1 <= b.len(),
{
    lemma_dec_at_span::<Vec<String>>(b, 0);
    if let Some((_, p1)) = dec_at::<Vec<String>>(b, 0) {
        lemma_dec_at_span::<Option<u64>>(b, p1);
        if let Some((_, p2)) = dec_at::<Option<u64>>(b, p1) {
            lemma_dec_at_span::<Option<u64>>(b, p2);
            if let Some((_, p3)) = dec_at::<Option<u64>>(b, p2) {
                lemma_dec_at_span::<Option<u64>>(b, p3);
                if let Some((_, p4)) = dec_at::<Option<u64>>(b, p3) {
                    lemma_dec_at_span::<Option<u64>>(b, p4);
                    if let Some((_, p5)) = dec_at::<Option<u64>>(b, p4) {
                        lemma_dec_at_span::<Option<u64>>(b, p5);
                    }
                }
            }
        }
    }
}

#[verifier::rlimit(100)]
proof fn lemma_event_head_enc(ev: &LoraxEvent, rest: Seq<u8>)
    requires
        ev.cinv(),
    ensures
        dec_event_head(ev.enc_head() + rest) == Some(
            ((ev.stage.model(), ev.settings.model(), ev.tree_submissions.model(), ev.tree_votes.model(), ev.eliminated_trees.model(), ev.start_time.model()), ev.enc_head().len() as int),
        ),
{
    let w = ev.enc_head() + rest;
    let e1 = ev.stage.enc();
    let e2 = ev.settings.enc();
    let e3 = ev.tree_submissions.enc();
    let e4 = ev.tree_votes.enc();
    let e5 = ev.eliminated_trees.enc();
    let e6 = ev.start_time.enc();
    let q0: int = 0;
    let q1 = q0 + e1.len();
    let q2 = q1 + e2.len();
    let q3 = q2 + e3.len();
    let q4 = q3 + e4.len();
    let q5 = q4 + e5.len();
    let q6 = q5 + e6.len();
    assert(w.subrange(q0, q1) =~= e1);
    lemma_dec_at::<LoraxStage>(ev.stage, w, q0);
    assert(w.subrange(q1, q2) =~= e2);
    lemma_dec_at::<LoraxSettings>(ev.settings, w, q1);
    assert(w.subrange(q2, q3) =~= e3);
    lemma_dec_at::<Assoc<String>>(ev.tree_submissions, w, q2);
    assert(w.subrange(q3, q4) =~= e4);
    lemma_dec_at::<Assoc<String>>(ev.tree_votes, w, q3);
    assert(w.subrange(q4, q5) =~= e5);
    lemma_dec_at::<Vec<String>>(ev.eliminated_trees, w, q4);
    assert(w.subrange(q5, q6) =~= e6);
    lemma_dec_at::<u64>(ev.start_time, w, q5);
}

#[verifier::rlimit(100)]
proof fn lemma_event_tail_enc(ev: &LoraxEvent, rest: Seq<u8>)
    requires
        ev.cinv(),
    ensures
        dec_event_tail(ev.enc_tail() + rest) == Some(
            ((ev.current_trees.model(), ev.campaign_message_id.model(), ev.stage_message_id.model(), ev.voting_message_id.model(), ev.tiebreaker_message_id.model(), ev.campaign_thread_id.model()), ev.enc_tail().len() as int),
        ),
{
    let w = ev.enc_tail() + rest;
    let e1 = ev.current_trees.enc();
    let e2 = ev.campaign_message_id.enc();
    let e3 = ev.stage_message_id.enc();
    let e4 = ev.voting_message_id.enc();
    let e5 = ev.tiebreaker_message_id.enc();
    let e6 = ev.campaign_thread_id.enc();
    let q0: int = 0;
    let q1 = q0 + e1.len();
    let q2 = q1 + e2.len();
    let q3 = q2 + e3.len();
    let q4 = q3 + e4.len();
    let q5 = q4 + e5.len();
    let q6 = q5 + e6.len();
    assert(w.subrange(q0, q1) =~= e1);
    lemma_dec_at::<Vec<String>>(ev.current_trees, w, q0);
    assert(w.subrange(q1, q2) =~= e2);
    lemma_dec_at::<Option<u64>>(ev.campaign_message_id, w, q1);
    assert(w.subrange(q2, q3) =~= e3);
    lemma_dec_at::<Option<u64>>(ev.stage_message_id, w, q2);
    assert(w.subrange(q3, q4) =~= e4);
    lemma_dec_at::<Option<u64>>(ev.voting_message_id, w, q3);
    assert(w.subrange(q4, q5) =~= e5);
    lemma_dec_at::<Option<u64>>(ev.tiebreaker_message_id, w, q4);
    assert(w.subrange(q5, q6) =~= e6);
    lemma_dec_at::<Option<u64>>(ev.campaign_thread_id, w, q5);
}

#[verifier::rlimit(100)]
fn read_event_head(b: &[u8], pos: usize) -> (r: Option<((LoraxStage, LoraxSettings, Assoc<String>, Assoc<String>, Vec<String>, u64), usize)>)
    requires
        pos <= b@.len(),
    ensures
        match r {
            Some(p) => {
                &&& pos <= p.1 <= b@.len()
                &&& p.0.0.cinv()
                &&& p.0.1.cinv()
                &&& p.0.2.cinv()
                &&& p.0.3.cinv()
                &&& p.0.4.cinv()
                &&& p.0.5.cinv()
                &&& dec_event_head(b@.skip(pos as int)) == Some(((p.0.0.model(), p.0.1.model(), p.0.2.model(), p.0.3.model(), p.0.4.model(), p.0.5.model()), p.1 - pos))
            },
            None => dec_event_head(b@.skip(pos as int)) is None,
        },
{
    let ghost w = b@.skip(pos as int);
    proof {
        assert(w.skip(0) =~= w);
    }
    let Some((stage, c1)) = <LoraxStage as Codec>::read_bytes(b, pos) else {
        return None;
    };
    proof {
        assert(w.skip(c1 - pos) =~= b@.skip(c1 as int));
    }
    let Some((settings, c2)) = <LoraxSettings as Codec>::read_bytes(b, c1) else {
        return None;
    };
    proof {
        assert(w.skip(c2 - pos) =~= b@.skip(c2 as int));
    }
    let Some((tree_submissions, c3)) = <Assoc<String> as Codec>::read_bytes(b, c2) else {
        return None;
    };
    proof {
        assert(w.skip(c3 - pos) =~= b@.skip(c3 as int));
    }
    let Some((tree_votes, c4)) = <Assoc<String> as Codec>::read_bytes(b, c3) else {
        return None;
    };
    proof {
        assert(w.skip(c4 - pos) =~= b@.skip(c4 as int));
    }
    let Some((eliminated_trees, c5)) = <Vec<String> as Codec>::read_bytes(b, c4) else {
        return None;
    };
    proof {
        assert(w.skip(c5 - pos) =~= b@.skip(c5 as int));
    }
    let Some((start_time, c6)) = <u64 as Codec>::read_bytes(b, c5) else {
        return None;
    };
    Some(((stage, settings, tree_submissions, tree_votes, eliminated_trees, start_time), c6))
}

#[verifier::rlimit(100)]
fn read_event_tail(b: &[u8], pos: usize) -> (r: Option<((Vec<String>, Option<u64>, Option<u64>, Option<u64>, Option<u64>, Option<u64>), usize)>)
    requires
        pos <= b@.len(),
    ensures
        match r {
            Some(p) => {
                &&& pos <= p.1 <= b@.len()
                &&& p.0.0.cinv()
                &&& p.0.1.cinv()
                &&& p.0.2.cinv()
                &&& p.0.3.cinv()
                &&& p.0.4.cinv()
                &&& p.0.5.cinv()
                &&& dec_event_tail(b@.skip(pos as int)) == Some(((p.0.0.model(), p.0.1.model(), p.0.2.model(), p.0.3.model(), p.0.4.model(), p.0.5.model()), p.1 - pos))
            },
            None => dec_event_tail(b@.skip(pos as int)) is None,
        },
{
    let ghost w = b@.skip(pos as int);
    proof {
        assert(w.skip(0) =~= w);
    }
    let Some((current_trees, c1)) = <Vec<String> as Codec>::read_bytes(b, pos) else {
        return None;
    };
    proof {
        assert(w.skip(c1 - pos) =~= b@.skip(c1 as int));
    }
    let Some((campaign_message_id, c2)) = <Option<u64> as Codec>::read_bytes(b, c1) else {
        return None;
    };
    proof {
        assert(w.skip(c2 - pos) =~= b@.skip(c2 as int));
    }
    let Some((stage_message_id, c3)) = <Option<u64> as Codec>::read_bytes(b, c2) else {
        return None;
    };
    proof {
        assert(w.skip(c3 - pos) =~= b@.skip(c3 as int));
    }
    let Some((voting_message_id, c4)) = <Option<u64> as Codec>::read_bytes(b, c3) else {
        return None;
    };
    proof {
        assert(w.skip(c4 - pos) =~= b@.skip(c4 as int));
    }
    let Some((tiebreaker_message_id, c5)) = <Option<u64> as Codec>::read_bytes(b, c4) else {
        return None;
    };
    proof {
        assert(w.skip(c5 - pos) =~= b@.skip(c5 as int));
    }
    let Some((campaign_thread_id, c6)) = <Option<u64> as Codec>::read_bytes(b, c5) else {
        return None;
    };
    Some(((current_trees, campaign_message_id, stage_message_id, voting_message_id, tiebreaker_message_id, campaign_thread_id), c6))
}

impl LoraxEvent {
    /// Encoding of the leading fields.
    pub open spec fn enc_head(&self) -> Seq<u8> {
        self.stage.enc() + self.settings.enc() + self.tree_submissions.enc() + self.tree_votes.enc() + self.eliminated_trees.enc() + self.start_time.enc()
    }

    /// Encoding of the trailing fields.
    pub open spec fn enc_tail(&self) -> Seq<u8> {
        self.current_trees.enc() + self.campaign_message_id.enc() + self.stage_message_id.enc() + self.voting_message_id.enc() + self.tiebreaker_message_id.enc() + self.campaign_thread_id.enc()
    }
}

impl Codec for LoraxEvent {
    type M = LoraxEventM;

    open spec fn model(&self) -> LoraxEventM {
        LoraxEventM { stage: self.stage.model(), settings: self.settings.model(), tree_submissions: self.tree_submissions.model(), tree_votes: self.tree_votes.model(), eliminated_trees: self.eliminated_trees.model(), start_time: self.start_time.model(), current_trees: self.current_trees.model(), campaign_message_id: self.campaign_message_id.model(), stage_message_id: self.stage_message_id.model(), voting_message_id: self.voting_message_id.model(), tiebreaker_message_id: self.tiebreaker_message_id.model(), campaign_thread_id: self.campaign_thread_id.model() }
    }

    open spec fn cinv(&self) -> bool {
        self.tree_submissions.cinv() && self.tree_votes.cinv() && self.eliminated_trees.cinv() && self.current_trees.cinv()
    }

    open spec fn enc(&self) -> Seq<u8> {
        self.enc_head() + self.enc_tail()
    }

    open spec fn dec(b: Seq<u8>) -> Option<(LoraxEventM, int)> {
        match dec_event_head(b) {
            None => None,
            Some((h, p)) => if 0 <= p <= b.len() {
                match dec_event_tail(b.skip(p)) {
                    None => None,
                    Some((t, k)) => Some((LoraxEventM { stage: h.0, settings: h.1, tree_submissions: h.2, tree_votes: h.3, eliminated_trees: h.4, start_time: h.5, current_trees: t.0, campaign_message_id: t.1, stage_message_id: t.2, voting_message_id: t.3, tiebreaker_message_id: t.4, campaign_thread_id: t.5 }, p + k)),
                }
            } else {
                None
            },
        }
    }

    proof fn lemma_dec_span(b: Seq<u8>) {
        lemma_event_head_span(b);
        if let Some((h, p)) = dec_event_head(b) {
            if 0 <= p <= b.len() {
                lemma_event_tail_span(b.skip(p));
            }
        }
    }

    #[verifier::rlimit(100)]
    proof fn lemma_dec_enc(&self, rest: Seq<u8>) {
        let w = self.enc() + rest;
        assert(w =~= self.enc_head() + (self.enc_tail() + rest));
        lemma_event_head_enc(self, self.enc_tail() + rest);
        assert(w.skip(self.enc_head().len() as int) =~= self.enc_tail() + rest);
        lemma_event_tail_enc(self, rest);
    }

    fn write_bytes(&self, out: &mut Vec<u8>) {
        self.stage.write_bytes(out);
        self.settings.write_bytes(out);
        self.tree_submissions.write_bytes(out);
        self.tree_votes.write_bytes(out);
        self.eliminated_trees.write_bytes(out);
        self.start_time.write_bytes(out);
        self.current_trees.write_bytes(out);
        self.campaign_message_id.write_bytes(out);
        self.stage_message_id.write_bytes(out);
        self.voting_message_id.write_bytes(out);
        self.tiebreaker_message_id.write_bytes(out);
        self.campaign_thread_id.write_bytes(out);
        proof {
            assert(final(out)@ =~= old(out)@ + self.enc());
        }
    }

    fn read_bytes(b: &[u8], pos: usize) -> (r: Option<(Self, usize)>) {
        let ghost w = b@.skip(pos as int);
        let Some((h, mid)) = read_event_head(b, pos) else {
            return None;
        };
        proof {
            assert(w.skip(mid - pos) =~= b@.skip(mid as int));
        }
        let Some((t, c)) = read_event_tail(b, mid) else {
            return None;
        };
        let (stage, settings, tree_submissions, tree_votes, eliminated_trees, start_time) = h;
        let (current_trees, campaign_message_id, stage_message_id, voting_message_id, tiebreaker_message_id, campaign_thread_id) = t;
        let ev = LoraxEvent { stage, settings, tree_submissions, tree_votes, eliminated_trees, start_time, current_trees, campaign_message_id, stage_message_id, voting_message_id, tiebreaker_message_id, campaign_thread_id };
        Some((ev, c))
    }

    fn cclone(&self) -> (c: Self) {
        LoraxEvent { stage: self.stage.cclone(), settings: self.settings.cclone(), tree_submissions: self.tree_submissions.cclone(), tree_votes: self.tree_votes.cclone(), eliminated_trees: self.eliminated_trees.cclone(), start_time: self.start_time.cclone(), current_trees: self.current_trees.cclone(), campaign_message_id: self.campaign_message_id.cclone(), stage_message_id: self.stage_message_id.cclone(), voting_message_id: self.voting_message_id.cclone(), tiebreaker_message_id: self.tiebreaker_message_id.cclone(), campaign_thread_id: self.campaign_thread_id.cclone() }
    }
}

/// Model of the whole lorax document.
pub ghost struct LoraxDatabaseM {
    pub events: Map<u64, LoraxEventM>,
    pub settings: Map<u64, LoraxSettings>,
}

/// The persisted lorax document: per-guild events and settings.
#[derive(Debug)]
pub struct LoraxDatabase {
    pub events: Assoc<LoraxEvent>,
    pub settings: Assoc<LoraxSettings>,
}

impl Codec for LoraxDatabase {
    type M = LoraxDatabaseM;

    open spec fn model(&self) -> LoraxDatabaseM {
        LoraxDatabaseM { events: self.events.model(), settings: self.settings.model() }
    }

    open spec fn cinv(&self) -> bool {
        self.events.cinv() && self.settings.cinv()
    }

    open spec fn enc(&self) -> Seq<u8> {
        self.events.enc() + self.settings.enc()
    }

    open spec fn dec(b: Seq<u8>) -> Option<(LoraxDatabaseM, int)> {
        match dec_at::<Assoc<LoraxEvent>>(b, 0) {
            None => None,
            Some((events, p1)) =>
            match dec_at::<Assoc<LoraxSettings>>(b, p1) {
                None => None,
                Some((settings, p2)) =>
                Some((LoraxDatabaseM { events, settings }, p2)),
            },
        }
    }

    proof fn lemma_dec_span(b: Seq<u8>) {
        lemma_dec_at_span::<Assoc<LoraxEvent>>(b, 0);
        if let Some((_, p1)) = dec_at::<Assoc<LoraxEvent>>(b, 0) {
            lemma_dec_at_span::<Assoc<LoraxSettings>>(b, p1);
        }
    }

    #[verifier::rlimit(100)]
    proof fn lemma_dec_enc(&self, rest: Seq<u8>) {
        let w = self.enc() + rest;
        let e1 = self.events.enc();
        let e2 = self.settings.enc();
        let q0: int = 0;
        let q1 = q0 + e1.len();
        let q2 = q1 + e2.len();
        assert(w.subrange(q0, q1) =~= e1);
        lemma_dec_at::<Assoc<LoraxEvent>>(self.events, w, q0);
        assert(w.subrange(q1, q2) =~= e2);
        lemma_dec_at::<Assoc<LoraxSettings>>(self.settings, w, q1);
    }

    fn write_bytes(&self, out: &mut Vec<u8>) {
        self.events.write_bytes(out);
        self.settings.write_bytes(out);
        proof {
            assert(final(out)@ =~= old(out)@ + self.enc());
        }
    }

    fn read_bytes(b: &[u8], pos: usize) -> (r: Option<(Self, usize)>) {
        let ghost w = b@.skip(pos as int);
        proof {
            assert(w.skip(0) =~= w);
        }
        let Some((events, c1)) = <Assoc<LoraxEvent> as Codec>::read_bytes(b, pos) else {
            return None;
        };
        proof {
            assert(w.skip(c1 - pos) =~= b@.skip(c1 as int));
        }
        let Some((settings, c2)) = <Assoc<LoraxSettings> as Codec>::read_bytes(b, c1) else {
            return None;
        };
        Some((LoraxDatabase { events, settings }, c2))
    }

    fn cclone(&self) -> (c: Self) {
        LoraxDatabase { events: self.events.cclone(), settings: self.settings.cclone() }
    }
}

impl Document for LoraxDatabase {
    open spec fn default_m() -> LoraxDatabaseM {
        LoraxDatabaseM { events: Map::empty(), settings: Map::empty() }
    }

    fn default_doc() -> (d: Self) {
        let d = LoraxDatabase { events: Assoc::new(), settings: Assoc::new() };
        proof {
            d.events.lemma_view_def();
            d.settings.lemma_view_def();
        }
        d
    }
}

} // verus!
// ---- Event logic ----

verus! {

use crate::text::{eq_fold, trimmed, eq_ignore_case, trim_text, text_eq};

/// Number of votes cast for the given name.
pub open spec fn count_votes(s: Seq<(u64, Seq<char>)>, name: Seq<char>) -> int
    decreases s.len(),
{
    if s.len() == 0 {
        0
    } else {
        count_votes(s.drop_last(), name) + (if s.last().1 == name {
            1int
        } else {
            0int
        })
    }
}

pub proof fn lemma_count_votes_bounds(s: Seq<(u64, Seq<char>)>, name: Seq<char>)
    ensures
        0 <= count_votes(s, name) <= s.len(),
    decreases s.len(),
{
    if s.len() > 0 {
        lemma_count_votes_bounds(s.drop_last(), name);
    }
}

pub proof fn lemma_count_votes_pos(s: Seq<(u64, Seq<char>)>, name: Seq<char>)
    requires
        count_votes(s, name) > 0,
    ensures
        exists|i: int| 0 <= i < s.len() && s[i].1 == name,
    decreases s.len(),
{
    if s.len() > 0 {
        if s.last().1 == name {
            assert(s[s.len() - 1].1 == name);
        } else {
            lemma_count_votes_pos(s.drop_last(), name);
            let i = choose|i: int| 0 <= i < s.drop_last().len() && s.drop_last()[i].1 == name;
            assert(s[i].1 == name);
        }
    }
}

proof fn lemma_count_votes_take_step(s: Seq<(u64, Seq<char>)>, name: Seq<char>, i: int)
    requires
        0 <= i < s.len(),
    ensures
        count_votes(s.take(i + 1), name) == count_votes(s.take(i), name) + (if s[i].1 == name {
            1int
        } else {
            0int
        }),
{
    assert(s.take(i + 1).drop_last() =~= s.take(i));
    assert(s.take(i + 1).last() == s[i]);
}

/// The stage's configured length in seconds.
pub open spec fn spec_stage_duration(ev: LoraxEventM) -> int {
    match ev.stage {
        LoraxStage::Submission => ev.settings.submission_duration * 60,
        LoraxStage::Voting => ev.settings.voting_duration * 60,
        LoraxStage::Tiebreaker(_) => ev.settings.tiebreaker_duration * 60,
        _ => 0,
    }
}

/// Whether votes may be cast in the given stage.
pub open spec fn spec_voting_stage(stage: LoraxStage) -> bool {
    stage is Voting || stage is Tiebreaker
}

/// True while votes may be cast.
pub fn is_voting_stage(stage: &LoraxStage) -> (r: bool)
    ensures
        r == spec_voting_stage(*stage),
{
    match stage {
        LoraxStage::Voting => true,
        LoraxStage::Tiebreaker(_) => true,
        _ => false,
    }
}

/// The names submitted so far, in submission order.
pub fn get_available_trees(event: &LoraxEvent, _user_id: u64) -> (r: Vec<String>)
    ensures
        r.model() == event.tree_submissions.entries_model().map_values(
            |p: (u64, Seq<char>)| p.1,
        ),
        event.tree_submissions.all_cinv() ==> r.cinv(),
{
    let subs = &event.tree_submissions;
    let n = subs.len();
    let mut out: Vec<String> = Vec::new();
    let mut i: usize = 0;
    while i < n
        invariant
            n == subs.entries_model().len(),
            0 <= i <= n,
            out@.len() == i,
            forall|l: int| 0 <= l < i ==> out@[l]@ == subs.entries_model()[l].1,
            subs.all_cinv() ==> (forall|l: int| 0 <= l < i ==> out@[l].cinv()),
        decreases n - i,
    {
        out.push(subs.val_at(i).cclone());
        i = i + 1;
    }
    proof {
        assert(out.model() =~= subs.entries_model().map_values(|p: (u64, Seq<char>)| p.1));
    }
    out
}

impl LoraxEvent {
    /// A fresh event in its submission stage.
    pub fn new(settings: LoraxSettings, start_time: u64) -> (ev: Self)
        ensures
            ev.cinv(),
            ev.stage == LoraxStage::Submission,
            ev.settings == settings,
            ev.start_time == start_time,
            ev.tree_submissions@ == Map::<u64, Seq<char>>::empty(),
            ev.tree_votes@ == Map::<u64, Seq<char>>::empty(),
            ev.eliminated_trees.model() == Seq::<Seq<char>>::empty(),
            ev.current_trees.model() == Seq::<Seq<char>>::empty(),
            ev.campaign_message_id is None,
            ev.stage_message_id is None,
            ev.voting_message_id is None,
            ev.tiebreaker_message_id is None,
            ev.campaign_thread_id is None,
            ev.tree_submissions.inv(),
            ev.tree_votes.inv(),
    {
        let ev = LoraxEvent {
            stage: LoraxStage::Submission,
            settings,
            tree_submissions: Assoc::new(),
            tree_votes: Assoc::new(),
            eliminated_trees: Vec::new(),
            start_time,
            current_trees: Vec::new(),
            campaign_message_id: None,
            stage_message_id: None,
            voting_message_id: None,
            tiebreaker_message_id: None,
            campaign_thread_id: None,
        };
        proof {
            assert(ev.eliminated_trees.model() =~= Seq::<Seq<char>>::empty());
            assert(ev.current_trees.model() =~= Seq::<Seq<char>>::empty());
            ev.tree_submissions.lemma_view_def();
            ev.tree_votes.lemma_view_def();
            assert(ev.eliminated_trees.cinv());
            assert(ev.current_trees.cinv());
        }
        ev
    }

    /// When the current stage ends, given its length in seconds.
    pub fn get_stage_end_timestamp(&self, duration: u64) -> (t: u64)
        requires
            self.start_time + duration <= u64::MAX,
        ensures
            t == self.start_time + duration,
    {
        self.start_time + duration
    }

    /// Who submitted the given name, scanning in submission order.
    pub fn get_tree_submitter(&self, tree_name: &str) -> (r: Option<u64>)
        ensures
            ({
                let subs = self.tree_submissions.entries_model();
                match r {
                    Some(uid) => exists|i: int|
                        #![trigger subs[i]]
                        0 <= i < subs.len() && subs[i].0 == uid && subs[i].1 == tree_name@,
                    None => forall|i: int| 0 <= i < subs.len() ==> #[trigger] subs[i].1
                        != tree_name@,
                }
            }),
    {
        let subs = &self.tree_submissions;
        let n = subs.len();
        let mut i: usize = 0;
        while i < n
            invariant
                subs == &self.tree_submissions,
                n == subs.entries_model().len(),
                0 <= i <= n,
                forall|l: int| 0 <= l < i ==> subs.entries_model()[l].1 != tree_name@,
            decreases n - i,
        {
            if text_eq(subs.val_at(i).as_str(), tree_name) {
                let uid = subs.key_at(i);
                proof {
                    let sm = self.tree_submissions.entries_model();
                    assert(exists|l: int|
                        #![trigger sm[l]]
                        0 <= l < sm.len() && sm[l].0 == uid && sm[l].1 == tree_name@) by {
                        assert(0 <= (i as int) && (i as int) < sm.len() && sm[i as int].0 == uid
                            && sm[i as int].1 == tree_name@);
                    }
                }
                return Some(uid);
            }
            i = i + 1;
        }
        None
    }

    /// A name with the most votes, or nothing when no vote was cast.
    pub fn get_winner(&self) -> (r: Option<String>)
        ensures
            ({
                let votes = self.tree_votes.entries_model();
                match r {
                    Some(t) => (exists|i: int| 0 <= i < votes.len() && votes[i].1 == t@) && (
                    forall|n: Seq<char>| #[trigger] count_votes(votes, n) <= count_votes(votes, t@)),
                    None => votes.len() == 0,
                }
            }),
    {
        let votes = &self.tree_votes;
        let ghost vm = votes.entries_model();
        let n = votes.len();
        if n == 0 {
            return None;
        }
        let mut best_idx: usize = 0;
        let mut best_count: u64 = count_for(votes, votes.val_at(0));
        let mut i: usize = 1;
        while i < n
            invariant
                vm == votes.entries_model(),
                n == vm.len(),
                n >= 1,
                1 <= i <= n,
                0 <= best_idx < n,
                best_count == count_votes(vm, vm[best_idx as int].1),
                forall|l: int|
                    0 <= l < i ==> count_votes(vm, vm[l].1) <= count_votes(
                        vm,
                        vm[best_idx as int].1,
                    ),
            decreases n - i,
        {
            let c = count_for(votes, votes.val_at(i));
            if c > best_count {
                best_idx = i;
                best_count = c;
            }
            i = i + 1;
        }
        let winner = votes.val_at(best_idx).cclone();
        proof {
            assert forall|name: Seq<char>| #[trigger]
                count_votes(vm, name) <= count_votes(vm, winner@) by {
                lemma_count_votes_bounds(vm, name);
                if count_votes(vm, name) > 0 {
                    lemma_count_votes_pos(vm, name);
                    let j = choose|j: int| 0 <= j < vm.len() && vm[j].1 == name;
                    assert(count_votes(vm, vm[j].1) <= count_votes(vm, vm[best_idx as int].1));
                } else {
                    lemma_count_votes_bounds(vm, winner@);
                }
            }
        }
        Some(winner)
    }

    /// The configured length of the current stage, in seconds.
    pub fn calculate_stage_duration(&self) -> (d: u64)
        requires
            spec_stage_duration(self.model()) <= u64::MAX,
        ensures
            d == spec_stage_duration(self.model()),
    {
        match &self.stage {
            LoraxStage::Submission => self.settings.submission_duration * 60,
            LoraxStage::Voting => self.settings.voting_duration * 60,
            LoraxStage::Tiebreaker(_) => self.settings.tiebreaker_duration * 60,
            _ => 0,
        }
    }

    /// Sets the current stage's length from a length in seconds, kept as
    /// whole minutes.
    pub fn adjust_stage_duration(&mut self, duration_sec: u64)
        ensures
            ({
                let m = duration_sec / 60;
                match old(self).stage {
                    LoraxStage::Submission => final(self).settings == LoraxSettings {
                        submission_duration: m,
                        ..old(self).settings
                    },
                    LoraxStage::Voting => final(self).settings == LoraxSettings {
                        voting_duration: m,
                        ..old(self).settings
                    },
                    LoraxStage::Tiebreaker(_) => final(self).settings == LoraxSettings {
                        tiebreaker_duration: m,
                        ..old(self).settings
                    },
                    _ => final(self).settings == old(self).settings,
                }
            }),
            final(self).stage == old(self).stage,
            final(self).tree_submissions == old(self).tree_submissions,
            final(self).tree_votes == old(self).tree_votes,
            final(self).eliminated_trees == old(self).eliminated_trees,
            final(self).current_trees == old(self).current_trees,
            final(self).start_time == old(self).start_time,
            final(self).cinv() == old(self).cinv(),
    {
        let m = duration_sec / 60;
        match &self.stage {
            LoraxStage::Submission => {
                self.settings.submission_duration = m;
            },
            LoraxStage::Voting => {
                self.settings.voting_duration = m;
            },
            LoraxStage::Tiebreaker(_) => {
                self.settings.tiebreaker_duration = m;
            },
            _ => {},
        }
    }
}

/// Votes cast for the given name.
fn count_for(votes: &Assoc<String>, name: &String) -> (c: u64)
    ensures
        c == count_votes(votes.entries_model(), name@),
{
    let ghost vm = votes.entries_model();
    let n = votes.len();
    let mut c: u64 = 0;
    let mut i: usize = 0;
    proof {
        assert(vm.take(0) =~= Seq::<(u64, Seq<char>)>::empty());
        lemma_count_votes_bounds(vm, name@);
    }
    while i < n
        invariant
            vm == votes.entries_model(),
            n == vm.len(),
            0 <= i <= n,
            c == count_votes(vm.take(i as int), name@),
            c <= i,
        decreases n - i,
    {
        proof {
            lemma_count_votes_take_step(vm, name@, i as int);
        }
        if votes.val_at(i).eq(name) {
            c = c + 1;
        }
        i = i + 1;
    }
    proof {
        assert(vm.take(n as int) =~= vm);
    }
    c
}

} // verus!
// ---- The document's operations ----

verus! {

use crate::codec::check_text;
use vstd::utf8::encode_utf8;

/// Some submitted name equals `name` up to ASCII case.
pub open spec fn has_submission(subs: Map<u64, Seq<char>>, name: Seq<char>) -> bool {
    exists|k: u64| #[trigger] subs.contains_key(k) && eq_fold(subs[k], name)
}

/// Some disqualified name equals `name` up to ASCII case.
pub open spec fn name_eliminated(elim: Seq<Seq<char>>, name: Seq<char>) -> bool {
    exists|i: int| 0 <= i < elim.len() && eq_fold(#[trigger] elim[i], name)
}

/// The reason a submission is rejected, in the order the checks are made; or
/// nothing when it is accepted.
pub open spec fn spec_submit_error(db: LoraxDatabaseM, guild_id: u64, tree: Seq<char>) -> Option<
    Seq<char>,
> {
    let t = trimmed(tree);
    if t.len() == 0 {
        Some("Tree name cannot be empty"@)
    } else if encode_utf8(tree).len() > 32 {
        Some("Tree name cannot be longer than 32 characters"@)
    } else if !db.events.contains_key(guild_id) {
        Some("No active event"@)
    } else if !(db.events[guild_id].stage is Submission) {
        Some("Submissions are not currently open"@)
    } else if has_submission(db.events[guild_id].tree_submissions, t) {
        Some("That tree name has already been submitted"@)
    } else if name_eliminated(db.events[guild_id].eliminated_trees, t) {
        Some("That tree name has been disqualified"@)
    } else {
        None
    }
}

/// The reason a vote is rejected, in the order the checks are made; or
/// nothing when it is accepted.
pub open spec fn spec_vote_error(db: LoraxDatabaseM, guild_id: u64, tree: Seq<char>) -> Option<
    Seq<char>,
> {
    if !db.events.contains_key(guild_id) {
        Some("No active event"@)
    } else if !spec_voting_stage(db.events[guild_id].stage) {
        Some("Voting is not currently open"@)
    } else if !(exists|i: int|
        0 <= i < db.events[guild_id].current_trees.len() && eq_fold(
            #[trigger] db.events[guild_id].current_trees[i],
            tree,
        )) {
        Some("Invalid tree selection"@)
    } else {
        None
    }
}

impl LoraxDatabase {
    /// A copy of the guild's event, if one exists.
    pub fn get_event(&self, guild_id: u64) -> (r: Option<LoraxEvent>)
        requires
            self.cinv(),
        ensures
            match r {
                Some(e) => self.model().events.contains_key(guild_id) && e.model()
                    == self.model().events[guild_id] && e.cinv(),
                None => !self.model().events.contains_key(guild_id),
            },
    {
        proof {
            self.events.lemma_view_def();
        }
        match self.events.get(guild_id) {
            Some(e) => Some(e.cclone()),
            None => None,
        }
    }

    /// Replaces the guild's event.
    pub fn update_event(&mut self, guild_id: u64, event: LoraxEvent)
        requires
            old(self).cinv(),
            event.cinv(),
        ensures
            final(self).cinv(),
            final(self).model() == (LoraxDatabaseM {
                events: old(self).model().events.insert(guild_id, event.model()),
                settings: old(self).model().settings,
            }),
    {
        proof {
            self.events.lemma_view_def();
        }
        let ghost em = event.model();
        self.events.insert(guild_id, event);
        proof {
            self.events.lemma_view_def();
        }
    }

    /// Drops the guild's event, closing it out; the guild's settings stay.
    /// Reports whether an event was there to drop.
    pub fn remove_event(&mut self, guild_id: u64) -> (r: bool)
        requires
            old(self).cinv(),
        ensures
            final(self).cinv(),
            final(self).model() == (LoraxDatabaseM {
                events: old(self).model().events.remove(guild_id),
                settings: old(self).model().settings,
            }),
            r == old(self).model().events.contains_key(guild_id),
    {
        proof {
            self.events.lemma_view_def();
        }
        let removed = self.events.remove(guild_id);
        proof {
            self.events.lemma_view_def();
            if !old(self).model().events.contains_key(guild_id) {
                assert(final(self).model().events =~= old(self).model().events.remove(guild_id));
            }
        }
        match removed {
            Some(_) => true,
            None => false,
        }
    }

    /// The guild's settings, or the defaults when none are stored.
    pub fn get_settings(&self, guild_id: u64) -> (r: LoraxSettings)
        requires
            self.cinv(),
        ensures
            self.model().settings.contains_key(guild_id) ==> r == self.model().settings[guild_id],
            !self.model().settings.contains_key(guild_id) ==> r == LoraxSettings::spec_default(),
    {
        proof {
            self.settings.lemma_view_def();
        }
        match self.settings.get(guild_id) {
            Some(s) => s.cclone(),
            None => LoraxSettings::default(),
        }
    }

    /// The guild's settings, storing the defaults first when none are stored.
    pub fn ensure_settings(&mut self, guild_id: u64) -> (r: LoraxSettings)
        requires
            old(self).cinv(),
        ensures
            final(self).cinv(),
            final(self).model().events == old(self).model().events,
            final(self).model().settings == if old(self).model().settings.contains_key(guild_id) {
                old(self).model().settings
            } else {
                old(self).model().settings.insert(guild_id, LoraxSettings::spec_default())
            },
            final(self).model().settings.contains_key(guild_id),
            r == final(self).model().settings[guild_id],
    {
        proof {
            self.settings.lemma_view_def();
        }
        let existing = match self.settings.get(guild_id) {
            Some(s) => Some(s.cclone()),
            None => None,
        };
        match existing {
            Some(s) => {
                proof {
                    assert(final(self).model() =~= old(self).model());
                    assert(final(self).model().settings =~= old(self).model().settings);
                }
                s
            },
            None => {
                let s = LoraxSettings::default();
                self.settings.insert(guild_id, s.cclone());
                proof {
                    self.settings.lemma_view_def();
                }
                s
            },
        }
    }
}

} // verus!
// ---- Submitting and voting ----

verus! {

use vstd::string::StrSliceExecFns;

/// Whether any entry value equals `name` up to ASCII case; the scan leaves
/// its finding at the sequence level.
fn scan_submissions(subs: &Assoc<String>, name: &str) -> (found: bool)
    ensures
        found == exists|l: int|
            0 <= l < subs.entries_model().len() && eq_fold(
                #[trigger] subs.entries_model()[l].1,
                name@,
            ),
{
    let ghost sm = subs.entries_model();
    let n = subs.len();
    let mut i: usize = 0;
    let mut found = false;
    while i < n
        invariant
            sm == subs.entries_model(),
            n == sm.len(),
            0 <= i <= n,
            found == exists|l: int| 0 <= l < i && eq_fold(#[trigger] sm[l].1, name@),
        decreases n - i,
    {
        if eq_ignore_case(subs.val_at(i).as_str(), name) {
            proof {
                assert(eq_fold(sm[i as int].1, name@));
            }
            found = true;
        }
        i = i + 1;
    }
    found
}

/// Whether any name in the list equals `name` up to ASCII case.
fn scan_names(names: &Vec<String>, name: &str) -> (found: bool)
    ensures
        found == exists|l: int|
            0 <= l < names.model().len() && eq_fold(#[trigger] names.model()[l], name@),
{
    let ghost nm = names.model();
    let n = names.len();
    let mut i: usize = 0;
    let mut found = false;
    while i < n
        invariant
            nm == names.model(),
            n == nm.len(),
            0 <= i <= n,
            found == exists|l: int| 0 <= l < i && eq_fold(#[trigger] nm[l], name@),
        decreases n - i,
    {
        if eq_ignore_case(names[i].as_str(), name) {
            proof {
                assert(eq_fold(nm[i as int], name@));
            }
            found = true;
        }
        i = i + 1;
    }
    found
}

impl LoraxDatabase {
    /// Records a user's tree-name submission: the name is trimmed, must not
    /// be empty nor over thirty-two bytes before trimming, submissions must
    /// be open, and
    /// the name must be neither submitted already (up to case) nor
    /// disqualified.  Replacing one's own earlier submission is allowed and
    /// reported together with the replaced name.
    pub fn submit_tree(&mut self, guild_id: u64, tree: String, user_id: u64) -> (r: Result<
        (bool, Option<String>),
        String,
    >)
        requires
            old(self).cinv(),
        ensures
            final(self).cinv(),
            match r {
                Err(m) => {
                    &&& spec_submit_error(old(self).model(), guild_id, tree@) == Some(m@)
                    &&& final(self).model() == old(self).model()
                },
                Ok(p) => {
                    &&& spec_submit_error(old(self).model(), guild_id, tree@) is None
                    &&& ({
                        let ev0 = old(self).model().events[guild_id];
                        &&& final(self).model().settings == old(self).model().settings
                        &&& final(self).model().events == old(self).model().events.insert(
                            guild_id,
                            (LoraxEventM {
                                tree_submissions: ev0.tree_submissions.insert(
                                    user_id,
                                    trimmed(tree@),
                                ),
                                ..ev0
                            }),
                        )
                        &&& p.0 == ev0.tree_submissions.contains_key(user_id)
                        &&& (match p.1 {
                            Some(prev) => p.0 && prev@ == ev0.tree_submissions[user_id],
                            None => !p.0,
                        })
                    })
                },
            },
    {
        let t = trim_text(tree.as_str());
        if t.as_str().is_empty() {
            return Err("Tree name cannot be empty".to_owned());
        }
        if tree.as_str().as_bytes().len() > 32 {
            return Err("Tree name cannot be longer than 32 characters".to_owned());
        }
        proof {
            self.events.lemma_view_def();
        }
        let ev = match self.events.get(guild_id) {
            None => {
                return Err("No active event".to_owned());
            },
            Some(e) => e,
        };
        let in_submission = match &ev.stage {
            LoraxStage::Submission => true,
            _ => false,
        };
        if !in_submission {
            return Err("Submissions are not currently open".to_owned());
        }
        proof {
            ev.tree_submissions.lemma_view_def();
        }
        let ghost sm = ev.tree_submissions.entries_model();
        let duplicate = scan_submissions(&ev.tree_submissions, t.as_str());
        if duplicate {
            proof {
                let l = choose|l: int| 0 <= l < sm.len() && eq_fold(#[trigger] sm[l].1, t@);
                ev.tree_submissions.lemma_entry_value(l);
                assert(ev.tree_submissions@.contains_key(sm[l].0));
                assert(has_submission(ev.tree_submissions@, t@));
            }
            return Err("That tree name has already been submitted".to_owned());
        }
        proof {
            assert forall|k: u64| #[trigger] ev.tree_submissions@.contains_key(k) implies !eq_fold(
                ev.tree_submissions@[k],
                t@,
            ) by {
                ev.tree_submissions.lemma_contains(k);
                let l = choose|l: int| 0 <= l < sm.len() && sm[l].0 == k;
                ev.tree_submissions.lemma_entry_value(l);
            }
            assert(!has_submission(ev.tree_submissions@, t@));
        }
        let disqualified = scan_names(&ev.eliminated_trees, t.as_str());
        if disqualified {
            proof {
                assert(name_eliminated(ev.eliminated_trees.model(), t@));
            }
            return Err("That tree name has been disqualified".to_owned());
        }
        proof {
            assert(!name_eliminated(ev.eliminated_trees.model(), t@));
        }
        let mut ev2 = ev.cclone();
        proof {
            ev2.tree_submissions.lemma_view_def();
        }
        let is_update = ev2.tree_submissions.contains_key(user_id);
        let prev = match ev2.tree_submissions.get(user_id) {
            Some(s) => Some(s.cclone()),
            None => None,
        };
        check_text(&t);
        ev2.tree_submissions.insert(user_id, t);
        proof {
            ev2.tree_submissions.lemma_view_def();
        }
        self.events.insert(guild_id, ev2);
        proof {
            self.events.lemma_view_def();
            assert(final(self).model().events =~= old(self).model().events.insert(
                guild_id,
                (LoraxEventM {
                    tree_submissions: old(self).model().events[guild_id].tree_submissions.insert(
                        user_id,
                        trimmed(tree@),
                    ),
                    ..old(self).model().events[guild_id]
                }),
            ));
        }
        Ok((is_update, prev))
    }

    /// Records a user's vote: voting must be open and the name must be one of
    /// the candidates, compared up to ASCII case.  A user's second vote
    /// replaces the first.
    pub fn vote_tree(&mut self, guild_id: u64, tree: String, user_id: u64) -> (r: Result<
        bool,
        String,
    >)
        requires
            old(self).cinv(),
        ensures
            final(self).cinv(),
            match r {
                Err(m) => {
                    &&& spec_vote_error(old(self).model(), guild_id, tree@) == Some(m@)
                    &&& final(self).model() == old(self).model()
                },
                Ok(is_update) => {
                    &&& spec_vote_error(old(self).model(), guild_id, tree@) is None
                    &&& ({
                        let ev0 = old(self).model().events[guild_id];
                        &&& final(self).model().settings == old(self).model().settings
                        &&& final(self).model().events == old(self).model().events.insert(
                            guild_id,
                            (LoraxEventM {
                                tree_votes: ev0.tree_votes.insert(user_id, tree@),
                                ..ev0
                            }),
                        )
                        &&& is_update == ev0.tree_votes.contains_key(user_id)
                    })
                },
            },
    {
        proof {
            self.events.lemma_view_def();
        }
        let ev = match self.events.get(guild_id) {
            None => {
                return Err("No active event".to_owned());
            },
            Some(e) => e,
        };
        let voting_open = is_voting_stage(&ev.stage);
        if !voting_open {
            return Err("Voting is not currently open".to_owned());
        }
        let found = scan_names(&ev.current_trees, tree.as_str());
        if !found {
            return Err("Invalid tree selection".to_owned());
        }
        let mut ev2 = ev.cclone();
        proof {
            ev2.tree_votes.lemma_view_def();
        }
        let is_update = ev2.tree_votes.contains_key(user_id);
        check_text(&tree);
        ev2.tree_votes.insert(user_id, tree);
        proof {
            ev2.tree_votes.lemma_view_def();
        }
        self.events.insert(guild_id, ev2);
        proof {
            self.events.lemma_view_def();
        }
        Ok(is_update)
    }
}

} // verus!
// ---- Winners and stage advancement ----

verus! {

use vstd::seq_lib::group_to_multiset_ensures;
use vstd::multiset::Multiset;

/// Some vote was cast for this name.
pub open spec fn vote_value(votes: Seq<(u64, Seq<char>)>, name: Seq<char>) -> bool {
    exists|i: int| 0 <= i < votes.len() && votes[i].1 == name
}

/// `w` is a tally of the votes: one entry per distinct name with its count,
/// every voted name present, ordered by falling count.
pub open spec fn winners_list(votes: Seq<(u64, Seq<char>)>, w: Seq<(String, u64)>) -> bool {
    &&& forall|i: int, j: int| 0 <= i < j < w.len() ==> w[i].0@ != w[j].0@
    &&& forall|i: int|
        0 <= i < w.len() ==> vote_value(votes, #[trigger] w[i].0@) && w[i].1 == count_votes(
            votes,
            w[i].0@,
        )
    &&& forall|n: Seq<char>| #[trigger] vote_value(votes, n) ==> exists|i: int|
        0 <= i < w.len() && w[i].0@ == n
    &&& forall|i: int, j: int| 0 <= i < j < w.len() ==> w[i].1 >= w[j].1
}

/// Whether the vote tally names any value.
pub proof fn lemma_winners_empty(votes: Seq<(u64, Seq<char>)>, w: Seq<(String, u64)>)
    requires
        winners_list(votes, w),
    ensures
        w.len() == 0 <==> votes.len() == 0,
{
    if votes.len() > 0 {
        assert(vote_value(votes, votes[0].1));
    }
    if w.len() > 0 {
        assert(vote_value(votes, w[0].0@));
    }
}

/// One entry per distinct voted name with its count, in first-seen order.
fn tally_votes(votes: &Assoc<String>) -> (acc: Vec<(String, u64)>)
    requires
        votes.all_cinv(),
    ensures
        forall|i: int, j: int| 0 <= i < j < acc@.len() ==> acc@[i].0@ != acc@[j].0@,
        forall|i: int|
            0 <= i < acc@.len() ==> vote_value(votes.entries_model(), #[trigger] acc@[i].0@)
                && acc@[i].1 == count_votes(votes.entries_model(), acc@[i].0@),
        forall|n: Seq<char>| #[trigger] vote_value(votes.entries_model(), n) ==> exists|i: int|
            0 <= i < acc@.len() && acc@[i].0@ == n,
        forall|i: int| 0 <= i < acc@.len() ==> acc@[i].0.cinv(),
{
    let ghost vm = votes.entries_model();
    let n = votes.len();
    let mut acc: Vec<(String, u64)> = Vec::new();
    let mut i: usize = 0;
    while i < n
        invariant
            votes.all_cinv(),
            vm == votes.entries_model(),
            n == vm.len(),
            0 <= i <= n,
            forall|a: int, b: int| 0 <= a < b < acc@.len() ==> acc@[a].0@ != acc@[b].0@,
            forall|a: int|
                0 <= a < acc@.len() ==> vote_value(vm, #[trigger] acc@[a].0@) && acc@[a].1
                    == count_votes(vm, acc@[a].0@),
            forall|l: int| 0 <= l < i ==> exists|a: int|
                0 <= a < acc@.len() && acc@[a].0@ == #[trigger] vm[l].1,
            forall|a: int| 0 <= a < acc@.len() ==> acc@[a].0.cinv(),
        decreases n - i,
    {
        let name = votes.val_at(i);
        let mut seen = false;
        let mut j: usize = 0;
        while j < acc.len()
            invariant
                0 <= j <= acc@.len(),
                i < vm.len(),
                vm == votes.entries_model(),
                name@ == vm[i as int].1,
                seen == exists|a: int| 0 <= a < j && acc@[a].0@ == vm[i as int].1,
            decreases acc@.len() - j,
        {
            if acc[j].0.eq(name) {
                proof {
                    assert(acc@[j as int].0@ == vm[i as int].1);
                }
                seen = true;
            }
            j = j + 1;
        }
        if !seen {
            let c = count_for(votes, name);
            let ghost acc_before = acc@;
            acc.push((name.cclone(), c));
            proof {
                assert(vote_value(vm, vm[i as int].1));
                assert(acc@.last().0@ == vm[i as int].1);
                assert forall|l: int| 0 <= l < i implies exists|a: int|
                    0 <= a < acc@.len() && acc@[a].0@ == #[trigger] vm[l].1 by {
                    let a = choose|a: int| 0 <= a < acc_before.len() && acc_before[a].0@ == vm[l].1;
                    assert(acc@[a] == acc_before[a]);
                }
            }
        }
        i = i + 1;
    }
    proof {
        assert forall|name: Seq<char>| #[trigger] vote_value(vm, name) implies exists|a: int|
            0 <= a < acc@.len() && acc@[a].0@ == name by {
            let l = choose|l: int| 0 <= l < vm.len() && vm[l].1 == name;
        }
    }
    acc
}

/// The tally ordered by falling count: repeatedly moves a maximal entry.
fn sort_tally(acc: Vec<(String, u64)>) -> (out: Vec<(String, u64)>)
    requires
        forall|i: int, j: int| 0 <= i < j < acc@.len() ==> acc@[i].0@ != acc@[j].0@,
    ensures
        out@.to_multiset() == acc@.to_multiset(),
        forall|i: int, j: int| 0 <= i < j < out@.len() ==> out@[i].1 >= out@[j].1,
        forall|i: int, j: int| 0 <= i < j < out@.len() ==> out@[i].0@ != out@[j].0@,
{
    broadcast use group_to_multiset_ensures;

    let ghost acc0 = acc@;
    let mut work = acc;
    let mut out: Vec<(String, u64)> = Vec::new();
    proof {
        assert(out@.to_multiset() =~= Multiset::<(String, u64)>::empty());
        assert(out@.to_multiset().add(work@.to_multiset()) =~= acc0.to_multiset());
    }
    while work.len() > 0
        invariant
            out@.to_multiset().add(work@.to_multiset()) == acc0.to_multiset(),
            forall|i: int, j: int| 0 <= i < j < out@.len() ==> out@[i].1 >= out@[j].1,
            forall|i: int, q: int|
                0 <= i < out@.len() && 0 <= q < work@.len() ==> out@[i].1 >= work@[q].1,
            forall|i: int, j: int| 0 <= i < j < out@.len() ==> out@[i].0@ != out@[j].0@,
            forall|i: int, j: int| 0 <= i < j < work@.len() ==> work@[i].0@ != work@[j].0@,
            forall|i: int, q: int|
                0 <= i < out@.len() && 0 <= q < work@.len() ==> out@[i].0@ != work@[q].0@,
        decreases work@.len(),
    {
        let mut mx: usize = 0;
        let mut j: usize = 1;
        while j < work.len()
            invariant
                work@.len() > 0,
                0 <= mx < j <= work@.len(),
                forall|q: int| 0 <= q < j ==> work@[mx as int].1 >= work@[q].1,
            decreases work@.len() - j,
        {
            if work[j].1 > work[mx].1 {
                mx = j;
            }
            j = j + 1;
        }
        let ghost work_before = work@;
        let picked = work.remove(mx);
        let ghost out_before = out@;
        out.push(picked);
        proof {
            work_before.to_multiset_ensures();
            out_before.to_multiset_ensures();
            assert(work_before.remove(mx as int).to_multiset() =~= work_before.to_multiset()
                .remove(work_before[mx as int]));
            assert(out_before.push(picked).to_multiset() =~= out_before.to_multiset().insert(
                picked,
            ));
            assert(out@.to_multiset().add(work@.to_multiset()) =~= acc0.to_multiset());
            assert(forall|q: int|
                0 <= q < work@.len() ==> #[trigger] work@[q] == work_before[if q < mx as int {
                    q
                } else {
                    q + 1
                }]);
            assert(forall|q: int| 0 <= q < work@.len() ==> picked.1 >= #[trigger] work@[q].1);
            assert(forall|q: int| 0 <= q < work@.len() ==> picked.0@ != #[trigger] work@[q].0@);
        }
    }
    out
}

/// The elements of two sequences agree when their multisets agree.
proof fn lemma_multiset_contains(a: Seq<(String, u64)>, b: Seq<(String, u64)>)
    requires
        a.to_multiset() == b.to_multiset(),
    ensures
        forall|p: (String, u64)| a.contains(p) <==> b.contains(p),
        a.len() == b.len(),
{
    a.to_multiset_ensures();
    b.to_multiset_ensures();
    assert forall|p: (String, u64)| a.contains(p) <==> b.contains(p) by {
        assert(a.to_multiset().count(p) == b.to_multiset().count(p));
        assert(a.contains(p) <==> a.to_multiset().count(p) > 0);
        assert(b.contains(p) <==> b.to_multiset().count(p) > 0);
    }
}

} // verus!
// ---- Stage advancement ----

verus! {

/// The names of a tally's entries, in order.
pub open spec fn names_of(w: Seq<(String, u64)>) -> Seq<Seq<char>> {
    w.map_values(|p: (String, u64)| p.0@)
}

/// How many leading entries carry the count `c`.
pub open spec fn tied_len(w: Seq<(String, u64)>, c: u64) -> int
    decreases w.len(),
{
    if w.len() == 0 || w[0].1 != c {
        0
    } else {
        1 + tied_len(w.drop_first(), c)
    }
}

/// `now` minus `then`, floored at zero.
pub open spec fn sat_sub(now: u64, then: u64) -> int {
    if now >= then {
        now - then
    } else {
        0
    }
}

/// What closing the voting stage leaves behind: a tie among the leading
/// names opens a tiebreaker on exactly those names; otherwise the event
/// completes with the full tally's names, best first.
pub open spec fn spec_voting_outcome(
    votes: Seq<(u64, Seq<char>)>,
    stage: LoraxStage,
    current: Seq<Seq<char>>,
) -> bool {
    exists|w: Seq<(String, u64)>|
        {
            &&& #[trigger] winners_list(votes, w)
            &&& w.len() > 0
            &&& if w.len() >= 2 && w[1].1 == w[0].1 {
                stage == LoraxStage::Tiebreaker(1usize) && current == names_of(w).take(
                    tied_len(w, w[0].1),
                )
            } else {
                stage == LoraxStage::Completed && current == names_of(w)
            }
        }
}

impl LoraxEvent {
    /// The vote tally, one entry per name, ordered by falling count.
    fn get_winners(&self) -> (w: Vec<(String, u64)>)
        requires
            self.cinv(),
        ensures
            winners_list(self.tree_votes.entries_model(), w@),
            forall|i: int| 0 <= i < w@.len() ==> w@[i].0.cinv(),
    {
        let ghost vm = self.tree_votes.entries_model();
        proof {
            self.tree_votes.lemma_view_def();
        }
        let acc = tally_votes(&self.tree_votes);
        let ghost accv = acc@;
        let w = sort_tally(acc);
        proof {
            lemma_multiset_contains(w@, accv);
            assert forall|i: int| 0 <= i < w@.len() implies (vote_value(vm, #[trigger] w@[i].0@)
                && w@[i].1 == count_votes(vm, w@[i].0@) && w@[i].0.cinv()) by {
                assert(w@.contains(w@[i]));
                assert(accv.contains(w@[i]));
                let a = choose|a: int| 0 <= a < accv.len() && accv[a] == w@[i];
            }
            assert forall|n: Seq<char>| #[trigger] vote_value(vm, n) implies exists|i: int|
                0 <= i < w@.len() && w@[i].0@ == n by {
                let a = choose|a: int| 0 <= a < accv.len() && accv[a].0@ == n;
                assert(accv.contains(accv[a]));
                assert(w@.contains(accv[a]));
                let i = choose|i: int| 0 <= i < w@.len() && w@[i] == accv[a];
            }
        }
        w
    }

    /// Whether the current stage's time is up, judged at time `now`.
    pub fn should_advance(&self, now: u64) -> (r: bool)
        requires
            spec_stage_duration(self.model()) <= u64::MAX,
        ensures
            r == (!(self.stage is Inactive) && sat_sub(now, self.start_time)
                > spec_stage_duration(self.model())),
    {
        match &self.stage {
            LoraxStage::Inactive => false,
            _ => {
                let elapsed = if now >= self.start_time {
                    now - self.start_time
                } else {
                    0
                };
                elapsed > self.calculate_stage_duration()
            },
        }
    }

    /// Moves the event to what follows its current stage at time `now`.
    ///
    /// Submissions close into voting over the submitted names, or die out
    /// when none came.  Voting closes into a tiebreaker on the tied leading
    /// names, or completes with the tally's names best first; either way the
    /// votes are cleared.  A tiebreaker runs at most three rounds before the
    /// event completes.  A completed event goes inactive, and an inactive
    /// one stays so.
    pub fn advance_stage(&mut self, now: u64)
        requires
            old(self).cinv(),
        ensures
            final(self).cinv(),
            final(self).settings == old(self).settings,
            final(self).tree_submissions == old(self).tree_submissions,
            final(self).eliminated_trees == old(self).eliminated_trees,
            final(self).campaign_message_id == old(self).campaign_message_id,
            final(self).stage_message_id == old(self).stage_message_id,
            final(self).voting_message_id == old(self).voting_message_id,
            final(self).tiebreaker_message_id == old(self).tiebreaker_message_id,
            final(self).campaign_thread_id == old(self).campaign_thread_id,
            match old(self).stage {
                LoraxStage::Inactive => *final(self) == *old(self),
                LoraxStage::Submission => {
                    &&& final(self).start_time == now
                    &&& final(self).tree_votes == old(self).tree_votes
                    &&& if old(self).tree_submissions.entries_model().len() == 0 {
                        final(self).stage == LoraxStage::Inactive && final(self).current_trees
                            == old(self).current_trees
                    } else {
                        final(self).stage == LoraxStage::Voting
                            && final(self).current_trees.model()
                            == old(self).tree_submissions.entries_model().map_values(
                            |p: (u64, Seq<char>)| p.1,
                        )
                    }
                },
                LoraxStage::Voting => {
                    &&& final(self).start_time == now
                    &&& final(self).tree_votes.entries_model() == Seq::<(u64, Seq<char>)>::empty()
                    &&& if old(self).tree_votes.entries_model().len() == 0 {
                        final(self).stage == LoraxStage::Inactive && final(self).current_trees
                            == old(self).current_trees
                    } else {
                        spec_voting_outcome(
                            old(self).tree_votes.entries_model(),
                            final(self).stage,
                            final(self).current_trees.model(),
                        )
                    }
                },
                LoraxStage::Tiebreaker(round) => {
                    &&& final(self).start_time == now
                    &&& final(self).tree_votes == old(self).tree_votes
                    &&& final(self).current_trees == old(self).current_trees
                    &&& final(self).stage == if round >= 3 {
                        LoraxStage::Completed
                    } else {
                        LoraxStage::Tiebreaker((round + 1) as usize)
                    }
                },
                LoraxStage::Completed => {
                    &&& final(self).stage == LoraxStage::Inactive
                    &&& final(self).start_time == old(self).start_time
                    &&& final(self).tree_votes == old(self).tree_votes
                    &&& final(self).current_trees == old(self).current_trees
                },
            },
    {
        let stage_now = self.stage.cclone();
        match stage_now {
            LoraxStage::Inactive => {},
            LoraxStage::Submission => {
                if self.tree_submissions.len() == 0 {
                    self.stage = LoraxStage::Inactive;
                } else {
                    self.stage = LoraxStage::Voting;
                    proof {
                        self.tree_submissions.lemma_view_def();
                    }
                    let trees = get_available_trees(self, 0);
                    self.current_trees = trees;
                }
                self.start_time = now;
            },
            LoraxStage::Voting => {
                if self.tree_votes.len() == 0 {
                    self.stage = LoraxStage::Inactive;
                } else {
                    let w = self.get_winners();
                    proof {
                        lemma_winners_empty(self.tree_votes.entries_model(), w@);
                    }
                    let top = w[0].1;
                    let tie = w.len() >= 2 && w[1].1 == top;
                    if tie {
                        self.stage = LoraxStage::Tiebreaker(1);
                        let mut current: Vec<String> = Vec::new();
                        let mut i: usize = 0;
                        while i < w.len() && w[i].1 == top
                            invariant
                                0 <= i <= w@.len(),
                                w@.len() > 0,
                                top == w@[0].1,
                                forall|l: int| 0 <= l < i ==> w@[l].1 == top,
                                current@.len() == i,
                                forall|l: int| 0 <= l < i ==> current@[l]@ == w@[l].0@,
                                forall|l: int| 0 <= l < i ==> w@[l].0.cinv() ==> current@[l].cinv(),
                                forall|l: int| 0 <= l < w@.len() ==> w@[l].0.cinv(),
                            decreases w@.len() - i,
                        {
                            current.push(w[i].0.cclone());
                            i = i + 1;
                        }
                        proof {
                            lemma_tied_len_front(w@, top, i as int);
                            assert(current.model() =~= names_of(w@).take(tied_len(w@, w@[0].1)));
                        }
                        self.current_trees = current;
                    } else {
                        self.stage = LoraxStage::Completed;
                        let mut current: Vec<String> = Vec::new();
                        let mut i: usize = 0;
                        while i < w.len()
                            invariant
                                0 <= i <= w@.len(),
                                current@.len() == i,
                                forall|l: int| 0 <= l < i ==> current@[l]@ == w@[l].0@,
                                forall|l: int| 0 <= l < i ==> w@[l].0.cinv() ==> current@[l].cinv(),
                                forall|l: int| 0 <= l < w@.len() ==> w@[l].0.cinv(),
                            decreases w@.len() - i,
                        {
                            current.push(w[i].0.cclone());
                            i = i + 1;
                        }
                        proof {
                            assert(current.model() =~= names_of(w@));
                        }
                        self.current_trees = current;
                    }
                    proof {
                        assert(spec_voting_outcome(
                            old(self).tree_votes.entries_model(),
                            self.stage,
                            self.current_trees.model(),
                        ));
                    }
                }
                self.tree_votes = Assoc::new();
                proof {
                    self.tree_votes.lemma_view_def();
                }
                self.start_time = now;
            },
            LoraxStage::Tiebreaker(round) => {
                if round >= 3 {
                    self.stage = LoraxStage::Completed;
                } else {
                    self.stage = LoraxStage::Tiebreaker(round + 1);
                }
                self.start_time = now;
            },
            LoraxStage::Completed => {
                self.stage = LoraxStage::Inactive;
            },
        }
    }
}

/// The tied prefix ends exactly where the count first drops.
proof fn lemma_tied_len_front(w: Seq<(String, u64)>, c: u64, i: int)
    requires
        0 <= i <= w.len(),
        forall|l: int| 0 <= l < i ==> w[l].1 == c,
        i == w.len() || w[i].1 != c,
    ensures
        tied_len(w, c) == i,
    decreases i,
{
    if i == 0 {
    } else {
        assert(w[0].1 == c);
        lemma_tied_len_front(w.drop_first(), c, i - 1);
    }
}

} // verus!
// ---- Enumerating events ----

verus! {

impl LoraxDatabase {
    /// The guilds that hold an event, in storage order.
    pub fn get_all_guild_ids(&self) -> (r: Vec<u64>)
        ensures
            r@ == self.events.entries_model().map_values(|p: (u64, LoraxEventM)| p.0),
    {
        let ghost em = self.events.entries_model();
        let n = self.events.len();
        let mut out: Vec<u64> = Vec::new();
        let mut i: usize = 0;
        while i < n
            invariant
                em == self.events.entries_model(),
                n == em.len(),
                0 <= i <= n,
                out@.len() == i,
                forall|l: int| 0 <= l < i ==> out@[l] == em[l].0,
            decreases n - i,
        {
            out.push(self.events.key_at(i));
            i = i + 1;
        }
        proof {
            assert(out@ =~= em.map_values(|p: (u64, LoraxEventM)| p.0));
        }
        out
    }
}

} // verus!
// ---- Withdrawing a submission ----

verus! {

use crate::assoc::keys_unique;

impl LoraxEvent {
    /// Withdraws the submission with the given name, exactly as stored:
    /// the submitter's entry leaves, the name is disqualified, and every
    /// vote for it is discarded.  Nothing changes when no submission holds
    /// the name.
    pub fn remove_submission(&mut self, tree: &str) -> (r: Option<u64>)
        requires
            old(self).cinv(),
        ensures
            final(self).cinv(),
            final(self).stage == old(self).stage,
            final(self).settings == old(self).settings,
            final(self).start_time == old(self).start_time,
            final(self).current_trees == old(self).current_trees,
            match r {
                Some(uid) => {
                    &&& (exists|i: int|
                        #![trigger old(self).tree_submissions.entries_model()[i]]
                        0 <= i < old(self).tree_submissions.entries_model().len() && old(self).tree_submissions.entries_model()[i].0 == uid && old(self).tree_submissions.entries_model()[i].1 == tree@)
                    &&& final(self).tree_submissions@ == old(self).tree_submissions@.remove(uid)
                    &&& final(self).eliminated_trees.model() == old(self).eliminated_trees.model().push(tree@)
                    &&& forall|k: u64|
                        final(self).tree_votes@.contains_key(k) <==> (#[trigger] old(self).tree_votes@.contains_key(k) && old(self).tree_votes@[k] != tree@)
                    &&& forall|k: u64|
                        final(self).tree_votes@.contains_key(k) ==> #[trigger] final(self).tree_votes@[k] == old(self).tree_votes@[k]
                },
                None => {
                    &&& *final(self) == *old(self)
                    &&& forall|i: int|
                        0 <= i < old(self).tree_submissions.entries_model().len()
                            ==> #[trigger] old(self).tree_submissions.entries_model()[i].1
                            != tree@
                },
            },
    {
        let submitter = self.get_tree_submitter(tree);
        let uid = match submitter {
            None => {
                return None;
            },
            Some(uid) => uid,
        };
        proof {
            self.tree_submissions.lemma_view_def();
            self.tree_votes.lemma_view_def();
            self.tree_votes.lemma_inv_def();
        }
        let _ = self.tree_submissions.remove(uid);
        let banned = tree.to_owned();
        check_text(&banned);
        self.eliminated_trees.push(banned);
        let ghost vm = self.tree_votes.entries_model();
        let mut kept: Assoc<String> = Assoc::new();
        let n = self.tree_votes.len();
        let mut i: usize = 0;
        while i < n
            invariant
                old(self).tree_votes == self.tree_votes,
                vm == self.tree_votes.entries_model(),
                keys_unique(vm),
                self.tree_votes.all_cinv(),
                n == vm.len(),
                0 <= i <= n,
                kept.inv(),
                kept.all_cinv(),
                forall|l: int|
                    0 <= l < i && vm[l].1 != tree@ ==> kept@.contains_key(#[trigger] vm[l].0)
                        && kept@[vm[l].0] == vm[l].1,
                forall|l: int|
                    0 <= l < i && vm[l].1 == tree@ ==> !kept@.contains_key(#[trigger] vm[l].0),
                forall|k: u64| #[trigger]
                    kept@.contains_key(k) ==> exists|l: int| 0 <= l < i && vm[l].0 == k,
            decreases n - i,
        {
            let k = self.tree_votes.key_at(i);
            let v = self.tree_votes.val_at(i);
            if !text_eq(v.as_str(), tree) {
                kept.insert(k, v.cclone());
            }
            proof {
                assert forall|k2: u64| #[trigger] kept@.contains_key(k2) implies exists|l: int|
                    0 <= l < i + 1 && vm[l].0 == k2 by {
                    if k2 == k {
                        assert(vm[i as int].0 == k2);
                    }
                }
                assert forall|l: int|
                    0 <= l < i + 1 && vm[l].1 == tree@ implies !kept@.contains_key(
                    #[trigger] vm[l].0) by {
                    if l < i {
                        assert(vm[l].0 != vm[i as int].0);
                    }
                }
            }
            i = i + 1;
        }
        proof {
            self.tree_votes.lemma_view_def();
            kept.lemma_view_def();
            let old_votes = self.tree_votes@;
            assert forall|k: u64| #[trigger]
                kept@.contains_key(k) implies (old_votes.contains_key(k) && old_votes[k]
                != tree@) by {
                let l = choose|l: int| 0 <= l < vm.len() && vm[l].0 == k;
                self.tree_votes.lemma_entry_value(l);
            }
            assert forall|k: u64| #[trigger]
                old_votes.contains_key(k) && old_votes[k] != tree@ implies kept@.contains_key(
                k,
            ) && kept@[k] == old_votes[k] by {
                self.tree_votes.lemma_contains(k);
                let l = choose|l: int| 0 <= l < vm.len() && vm[l].0 == k;
                self.tree_votes.lemma_entry_value(l);
            }
        }
        self.tree_votes = kept;
        proof {
            self.tree_submissions.lemma_view_def();
            self.tree_votes.lemma_view_def();
            assert(self.eliminated_trees.cinv());
        }
        Some(uid)
    }
}

} // verus!
