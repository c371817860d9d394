use vstd::prelude::*;

use crate::assoc::Assoc;
use crate::codec::{Codec, dec_at, lemma_dec_at, lemma_dec_at_span};
use crate::document::Document;
use vstd::utf8::encode_utf8;

verus! {

/// How a polled statistic is rendered.  The numeric formatting itself works
/// on floating-point samples and lives with the embedding application; the
/// kind is what the configuration stores and the commands choose from.
#[derive(Debug, PartialEq, Eq, Structural, Clone, Copy)]
pub enum DataType {
    Integer,
    Float,
    Percentage,
    Bytes,
    Duration,
    Temperature,
    Speed,
    Currency,
    Scientific,
}

impl DataType {
    /// The kind's lower-case name.
    pub fn name(&self) -> (r: String)
        ensures
            r@ == match *self {
                DataType::Integer => "integer"@,
                DataType::Float => "float"@,
                DataType::Percentage => "percentage"@,
                DataType::Bytes => "bytes"@,
                DataType::Duration => "duration"@,
                DataType::Temperature => "temperature"@,
                DataType::Speed => "speed"@,
                DataType::Currency => "currency"@,
                DataType::Scientific => "scientific"@,
            },
    {
        match self {
            DataType::Integer => "integer".to_owned(),
            DataType::Float => "float".to_owned(),
            DataType::Percentage => "percentage".to_owned(),
            DataType::Bytes => "bytes".to_owned(),
            DataType::Duration => "duration".to_owned(),
            DataType::Temperature => "temperature".to_owned(),
            DataType::Speed => "speed".to_owned(),
            DataType::Currency => "currency".to_owned(),
            DataType::Scientific => "scientific".to_owned(),
        }
    }
}

} // verus!

// ---- The stats document ----

verus! {

/// Model of one guild's polling configuration.
pub ghost struct GuildSettingsM {
    pub prometheus_url: Seq<char>,
    pub update_delay: u64,
}

/// One guild's polling configuration: where to poll and, in seconds, how
/// often a display may be refreshed.
#[derive(Debug, PartialEq)]
pub struct GuildSettings {
    pub prometheus_url: String,
    pub update_delay: u64,
}

impl GuildSettings {
    /// The configuration a guild starts with.
    pub open spec fn spec_default() -> GuildSettingsM {
        GuildSettingsM { prometheus_url: Seq::empty(), update_delay: 60 }
    }
}

impl Default for GuildSettings {
    fn default() -> (s: Self)
        ensures
            s.model() == GuildSettings::spec_default(),
            s.cinv(),
    {
        let s = GuildSettings { prometheus_url: String::new(), update_delay: 60 };
        proof {
            assert(encode_utf8(s.prometheus_url@) =~= Seq::<u8>::empty());
        }
        s
    }
}

impl Codec for GuildSettings {
    type M = GuildSettingsM;

    open spec fn model(&self) -> GuildSettingsM {
        GuildSettingsM {
            prometheus_url: self.prometheus_url@,
            update_delay: self.update_delay,
        }
    }

    open spec fn cinv(&self) -> bool {
        self.prometheus_url.cinv()
    }

    open spec fn enc(&self) -> Seq<u8> {
        self.prometheus_url.enc() + self.update_delay.enc()
    }

    open spec fn dec(b: Seq<u8>) -> Option<(GuildSettingsM, int)> {
        match dec_at::<String>(b, 0) {
            None => None,
            Some((prometheus_url, p1)) => match dec_at::<u64>(b, p1) {
                None => None,
                Some((update_delay, p2)) => Some(
                    (GuildSettingsM { prometheus_url, update_delay }, p2),
                ),
            },
        }
    }

    proof fn lemma_dec_span(b: Seq<u8>) {
        lemma_dec_at_span::<String>(b, 0);
        if let Some((_, p1)) = dec_at::<String>(b, 0) {
            lemma_dec_at_span::<u64>(b, p1);
        }
    }

    proof fn lemma_dec_enc(&self, rest: Seq<u8>) {
        let w = self.enc() + rest;
        let e1 = self.prometheus_url.enc();
        let e2 = self.update_delay.enc();
        let q1 = e1.len() as int;
        let q2 = q1 + e2.len();
        assert(w.subrange(0, q1) =~= e1);
        lemma_dec_at::<String>(self.prometheus_url, w, 0);
        assert(w.subrange(q1, q2) =~= e2);
        lemma_dec_at::<u64>(self.update_delay, w, q1);
    }

    fn write_bytes(&self, out: &mut Vec<u8>) {
        self.prometheus_url.write_bytes(out);
        self.update_delay.write_bytes(out);
        proof {
            assert(final(out)@ =~= old(out)@ + self.enc());
        }
    }

    fn read_bytes(b: &[u8], pos: usize) -> (r: Option<(Self, usize)>) {
        let ghost w = b@.skip(pos as int);
        proof {
            assert(w.skip(0) =~= w);
        }
        let Some((prometheus_url, c1)) = <String as Codec>::read_bytes(b, pos) else {
            return None;
        };
        proof {
            assert(w.skip(c1 - pos) =~= b@.skip(c1 as int));
        }
        let Some((update_delay, c2)) = u64::read_bytes(b, c1) else {
            return None;
        };
        Some((GuildSettings { prometheus_url, update_delay }, c2))
    }

    fn cclone(&self) -> (c: Self) {
        GuildSettings {
            prometheus_url: self.prometheus_url.cclone(),
            update_delay: self.update_delay,
        }
    }
}

/// Model of the stats document.
pub ghost struct StatsDatabaseM {
    pub guild_settings: Map<u64, GuildSettingsM>,
}

/// The persisted stats document: each guild's polling configuration.  The
/// stat-bar displays themselves carry floating-point samples and live with
/// the embedding application.
#[derive(Debug)]
pub struct StatsDatabase {
    pub guild_settings: Assoc<GuildSettings>,
}

impl Codec for StatsDatabase {
    type M = StatsDatabaseM;

    open spec fn model(&self) -> StatsDatabaseM {
        StatsDatabaseM { guild_settings: self.guild_settings.model() }
    }

    open spec fn cinv(&self) -> bool {
        self.guild_settings.cinv()
    }

    open spec fn enc(&self) -> Seq<u8> {
        self.guild_settings.enc()
    }

    open spec fn dec(b: Seq<u8>) -> Option<(StatsDatabaseM, int)> {
        match dec_at::<Assoc<GuildSettings>>(b, 0) {
            None => None,
            Some((guild_settings, p)) => Some((StatsDatabaseM { guild_settings }, p)),
        }
    }

    proof fn lemma_dec_span(b: Seq<u8>) {
        lemma_dec_at_span::<Assoc<GuildSettings>>(b, 0);
    }

    proof fn lemma_dec_enc(&self, rest: Seq<u8>) {
        let w = self.enc() + rest;
        assert(w.subrange(0, self.guild_settings.enc().len() as int) =~= self.guild_settings.enc());
        lemma_dec_at::<Assoc<GuildSettings>>(self.guild_settings, w, 0);
    }

    fn write_bytes(&self, out: &mut Vec<u8>) {
        self.guild_settings.write_bytes(out);
    }

    fn read_bytes(b: &[u8], pos: usize) -> (r: Option<(Self, usize)>) {
        let ghost w = b@.skip(pos as int);
        proof {
            assert(w.skip(0) =~= w);
        }
        match <Assoc<GuildSettings> as Codec>::read_bytes(b, pos) {
            Some((guild_settings, p)) => Some((StatsDatabase { guild_settings }, p)),
            None => None,
        }
    }

    fn cclone(&self) -> (c: Self) {
        StatsDatabase { guild_settings: self.guild_settings.cclone() }
    }
}

impl Document for StatsDatabase {
    open spec fn default_m() -> StatsDatabaseM {
        StatsDatabaseM { guild_settings: Map::empty() }
    }

    fn default_doc() -> (d: Self) {
        let d = StatsDatabase { guild_settings: Assoc::new() };
        proof {
            d.guild_settings.lemma_view_def();
        }
        d
    }
}

impl StatsDatabase {
    /// The guild's polling configuration, or the defaults when none is
    /// stored.
    pub fn get_settings(&self, guild_id: u64) -> (r: GuildSettings)
        requires
            self.cinv(),
        ensures
            self.model().guild_settings.contains_key(guild_id) ==> r.model()
                == self.model().guild_settings[guild_id],
            !self.model().guild_settings.contains_key(guild_id) ==> r.model()
                == GuildSettings::spec_default(),
    {
        proof {
            self.guild_settings.lemma_view_def();
        }
        match self.guild_settings.get(guild_id) {
            Some(s) => s.cclone(),
            None => GuildSettings::default(),
        }
    }

    /// The guild's polling configuration, storing the defaults first when
    /// none is stored.
    pub fn ensure_settings(&mut self, guild_id: u64) -> (r: GuildSettings)
        requires
            old(self).cinv(),
        ensures
            final(self).cinv(),
            final(self).model().guild_settings == if old(
                self,
            ).model().guild_settings.contains_key(guild_id) {
                old(self).model().guild_settings
            } else {
                old(self).model().guild_settings.insert(
                    guild_id,
                    GuildSettings::spec_default(),
                )
            },
            final(self).model().guild_settings.contains_key(guild_id),
            r.model() == final(self).model().guild_settings[guild_id],
    {
        proof {
            self.guild_settings.lemma_view_def();
        }
        let existing = match self.guild_settings.get(guild_id) {
            Some(s) => Some(s.cclone()),
            None => None,
        };
        match existing {
            Some(s) => {
                proof {
                    assert(final(self).model().guild_settings =~= old(
                        self,
                    ).model().guild_settings);
                }
                s
            },
            None => {
                let s = GuildSettings::default();
                self.guild_settings.insert(guild_id, s.cclone());
                proof {
                    self.guild_settings.lemma_view_def();
                }
                s
            },
        }
    }
}

} // verus!
