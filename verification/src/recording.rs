use vstd::prelude::*;

use crate::assoc::Assoc;
use crate::codec::{Codec, dec_at, lemma_dec_at, lemma_dec_at_span};
use crate::document::Document;

verus! {

/// One voice channel enrolled for recording; the last-activity instant is
/// seconds since the Unix epoch.
#[derive(Debug, PartialEq)]
pub struct RecordingChannel {
    pub guild_id: u64,
    pub voice_channel_id: u64,
    pub is_recording: bool,
    pub last_activity: Option<u64>,
}

impl Codec for RecordingChannel {
    type M = RecordingChannel;

    open spec fn model(&self) -> RecordingChannel {
        *self
    }

    open spec fn cinv(&self) -> bool {
        true
    }

    open spec fn enc(&self) -> Seq<u8> {
        self.guild_id.enc() + self.voice_channel_id.enc() + self.is_recording.enc()
            + self.last_activity.enc()
    }

    open spec fn dec(b: Seq<u8>) -> Option<(RecordingChannel, int)> {
        match dec_at::<u64>(b, 0) {
            None => None,
            Some((guild_id, p1)) => match dec_at::<u64>(b, p1) {
                None => None,
                Some((voice_channel_id, p2)) => match dec_at::<bool>(b, p2) {
                    None => None,
                    Some((is_recording, p3)) => match dec_at::<Option<u64>>(b, p3) {
                        None => None,
                        Some((last_activity, p4)) => Some(
                            (
                                RecordingChannel {
                                    guild_id,
                                    voice_channel_id,
                                    is_recording,
                                    last_activity,
                                },
                                p4,
                            ),
                        ),
                    },
                },
            },
        }
    }

    proof fn lemma_dec_span(b: Seq<u8>) {
        lemma_dec_at_span::<u64>(b, 0);
        if let Some((_, p1)) = dec_at::<u64>(b, 0) {
            lemma_dec_at_span::<u64>(b, p1);
            if let Some((_, p2)) = dec_at::<u64>(b, p1) {
                lemma_dec_at_span::<bool>(b, p2);
                if let Some((_, p3)) = dec_at::<bool>(b, p2) {
                    lemma_dec_at_span::<Option<u64>>(b, p3);
                }
            }
        }
    }

    #[verifier::rlimit(100)]
    proof fn lemma_dec_enc(&self, rest: Seq<u8>) {
        let w = self.enc() + rest;
        let e1 = self.guild_id.enc();
        let e2 = self.voice_channel_id.enc();
        let e3 = self.is_recording.enc();
        let e4 = self.last_activity.enc();
        let q0: int = 0;
        let q1 = q0 + e1.len();
        let q2 = q1 + e2.len();
        let q3 = q2 + e3.len();
        let q4 = q3 + e4.len();
        assert(w.subrange(q0, q1) =~= e1);
        lemma_dec_at::<u64>(self.guild_id, w, q0);
        assert(w.subrange(q1, q2) =~= e2);
        lemma_dec_at::<u64>(self.voice_channel_id, w, q1);
        assert(w.subrange(q2, q3) =~= e3);
        lemma_dec_at::<bool>(self.is_recording, w, q2);
        assert(w.subrange(q3, q4) =~= e4);
        lemma_dec_at::<Option<u64>>(self.last_activity, w, q3);
    }

    fn write_bytes(&self, out: &mut Vec<u8>) {
        self.guild_id.write_bytes(out);
        self.voice_channel_id.write_bytes(out);
        self.is_recording.write_bytes(out);
        self.last_activity.write_bytes(out);
        proof {
            assert(final(out)@ =~= old(out)@ + self.enc());
        }
    }

    #[verifier::rlimit(100)]
    fn read_bytes(b: &[u8], pos: usize) -> (r: Option<(Self, usize)>) {
        let ghost w = b@.skip(pos as int);
        proof {
            assert(w.skip(0) =~= w);
        }
        let Some((guild_id, c1)) = u64::read_bytes(b, pos) else {
            return None;
        };
        proof {
            assert(w.skip(c1 - pos) =~= b@.skip(c1 as int));
        }
        let Some((voice_channel_id, c2)) = u64::read_bytes(b, c1) else {
            return None;
        };
        proof {
            assert(w.skip(c2 - pos) =~= b@.skip(c2 as int));
        }
        let Some((is_recording, c3)) = bool::read_bytes(b, c2) else {
            return None;
        };
        proof {
            assert(w.skip(c3 - pos) =~= b@.skip(c3 as int));
        }
        let Some((last_activity, c4)) = <Option<u64> as Codec>::read_bytes(b, c3) else {
            return None;
        };
        Some((RecordingChannel { guild_id, voice_channel_id, is_recording, last_activity }, c4))
    }

    fn cclone(&self) -> (c: Self) {
        RecordingChannel {
            guild_id: self.guild_id,
            voice_channel_id: self.voice_channel_id,
            is_recording: self.is_recording,
            last_activity: self.last_activity,
        }
    }
}

/// Model of the recording document.
pub ghost struct RecordingDatabaseM {
    pub channels: Map<u64, RecordingChannel>,
}

/// The persisted recording document: the enrolled voice channels, keyed by
/// guild.  The audio pipeline itself lives with the embedding application;
/// it only reads and updates these entries through a store.
#[derive(Debug)]
pub struct RecordingDatabase {
    pub channels: Assoc<RecordingChannel>,
}

impl Codec for RecordingDatabase {
    type M = RecordingDatabaseM;

    open spec fn model(&self) -> RecordingDatabaseM {
        RecordingDatabaseM { channels: self.channels.model() }
    }

    open spec fn cinv(&self) -> bool {
        self.channels.cinv()
    }

    open spec fn enc(&self) -> Seq<u8> {
        self.channels.enc()
    }

    open spec fn dec(b: Seq<u8>) -> Option<(RecordingDatabaseM, int)> {
        match dec_at::<Assoc<RecordingChannel>>(b, 0) {
            None => None,
            Some((channels, p)) => Some((RecordingDatabaseM { channels }, p)),
        }
    }

    proof fn lemma_dec_span(b: Seq<u8>) {
        lemma_dec_at_span::<Assoc<RecordingChannel>>(b, 0);
    }

    proof fn lemma_dec_enc(&self, rest: Seq<u8>) {
        let w = self.enc() + rest;
        assert(w.subrange(0, self.channels.enc().len() as int) =~= self.channels.enc());
        lemma_dec_at::<Assoc<RecordingChannel>>(self.channels, w, 0);
    }

    fn write_bytes(&self, out: &mut Vec<u8>) {
        self.channels.write_bytes(out);
    }

    fn read_bytes(b: &[u8], pos: usize) -> (r: Option<(Self, usize)>) {
        let ghost w = b@.skip(pos as int);
        proof {
            assert(w.skip(0) =~= w);
        }
        match <Assoc<RecordingChannel> as Codec>::read_bytes(b, pos) {
            Some((channels, p)) => Some((RecordingDatabase { channels }, p)),
            None => None,
        }
    }

    fn cclone(&self) -> (c: Self) {
        RecordingDatabase { channels: self.channels.cclone() }
    }
}

impl Document for RecordingDatabase {
    open spec fn default_m() -> RecordingDatabaseM {
        RecordingDatabaseM { channels: Map::empty() }
    }

    fn default_doc() -> (d: Self) {
        let d = RecordingDatabase { channels: Assoc::new() };
        proof {
            d.channels.lemma_view_def();
        }
        d
    }
}

} // verus!
