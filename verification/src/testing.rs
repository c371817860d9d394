use vstd::prelude::*;

use crate::assoc::Assoc;
use crate::codec::{Codec, dec_at, lemma_dec_at, lemma_dec_at_span};
use crate::document::Document;
use crate::text::text_eq;

verus! {

/// Model of one provisioned test server.
pub ghost struct TestServerM {
    pub server_id: Seq<char>,
    pub user_id: u64,
    pub name: Seq<char>,
    pub created_at: u64,
    pub expires_at: u64,
}

/// One provisioned test server; instants are seconds since the Unix epoch.
#[derive(Debug)]
pub struct TestServer {
    pub server_id: String,
    pub user_id: u64,
    pub name: String,
    pub created_at: u64,
    pub expires_at: u64,
}

impl Codec for TestServer {
    type M = TestServerM;

    open spec fn model(&self) -> TestServerM {
        TestServerM {
            server_id: self.server_id@,
            user_id: self.user_id,
            name: self.name@,
            created_at: self.created_at,
            expires_at: self.expires_at,
        }
    }

    open spec fn cinv(&self) -> bool {
        self.server_id.cinv() && self.name.cinv()
    }

    open spec fn enc(&self) -> Seq<u8> {
        self.server_id.enc() + self.user_id.enc() + self.name.enc() + self.created_at.enc()
            + self.expires_at.enc()
    }

    open spec fn dec(b: Seq<u8>) -> Option<(TestServerM, int)> {
        match dec_at::<String>(b, 0) {
            None => None,
            Some((server_id, p1)) => match dec_at::<u64>(b, p1) {
                None => None,
                Some((user_id, p2)) => match dec_at::<String>(b, p2) {
                    None => None,
                    Some((name, p3)) => match dec_at::<u64>(b, p3) {
                        None => None,
                        Some((created_at, p4)) => match dec_at::<u64>(b, p4) {
                            None => None,
                            Some((expires_at, p5)) => Some(
                                (
                                    TestServerM {
                                        server_id,
                                        user_id,
                                        name,
                                        created_at,
                                        expires_at,
                                    },
                                    p5,
                                ),
                            ),
                        },
                    },
                },
            },
        }
    }

    proof fn lemma_dec_span(b: Seq<u8>) {
        lemma_dec_at_span::<String>(b, 0);
        if let Some((_, p1)) = dec_at::<String>(b, 0) {
            lemma_dec_at_span::<u64>(b, p1);
            if let Some((_, p2)) = dec_at::<u64>(b, p1) {
                lemma_dec_at_span::<String>(b, p2);
                if let Some((_, p3)) = dec_at::<String>(b, p2) {
                    lemma_dec_at_span::<u64>(b, p3);
                    if let Some((_, p4)) = dec_at::<u64>(b, p3) {
                        lemma_dec_at_span::<u64>(b, p4);
                    }
                }
            }
        }
    }

    #[verifier::rlimit(100)]
    proof fn lemma_dec_enc(&self, rest: Seq<u8>) {
        let w = self.enc() + rest;
        let e1 = self.server_id.enc();
        let e2 = self.user_id.enc();
        let e3 = self.name.enc();
        let e4 = self.created_at.enc();
        let e5 = self.expires_at.enc();
        let q0: int = 0;
        let q1 = q0 + e1.len();
        let q2 = q1 + e2.len();
        let q3 = q2 + e3.len();
        let q4 = q3 + e4.len();
        let q5 = q4 + e5.len();
        assert(w.subrange(q0, q1) =~= e1);
        lemma_dec_at::<String>(self.server_id, w, q0);
        assert(w.subrange(q1, q2) =~= e2);
        lemma_dec_at::<u64>(self.user_id, w, q1);
        assert(w.subrange(q2, q3) =~= e3);
        lemma_dec_at::<String>(self.name, w, q2);
        assert(w.subrange(q3, q4) =~= e4);
        lemma_dec_at::<u64>(self.created_at, w, q3);
        assert(w.subrange(q4, q5) =~= e5);
        lemma_dec_at::<u64>(self.expires_at, w, q4);
    }

    fn write_bytes(&self, out: &mut Vec<u8>) {
        self.server_id.write_bytes(out);
        self.user_id.write_bytes(out);
        self.name.write_bytes(out);
        self.created_at.write_bytes(out);
        self.expires_at.write_bytes(out);
        proof {
            assert(final(out)@ =~= old(out)@ + self.enc());
        }
    }

    #[verifier::rlimit(100)]
    fn read_bytes(b: &[u8], pos: usize) -> (r: Option<(Self, usize)>) {
        let ghost w = b@.skip(pos as int);
        proof {
            assert(w.skip(0) =~= w);
        }
        let Some((server_id, c1)) = <String as Codec>::read_bytes(b, pos) else {
            return None;
        };
        proof {
            assert(w.skip(c1 - pos) =~= b@.skip(c1 as int));
        }
        let Some((user_id, c2)) = u64::read_bytes(b, c1) else {
            return None;
        };
        proof {
            assert(w.skip(c2 - pos) =~= b@.skip(c2 as int));
        }
        let Some((name, c3)) = <String as Codec>::read_bytes(b, c2) else {
            return None;
        };
        proof {
            assert(w.skip(c3 - pos) =~= b@.skip(c3 as int));
        }
        let Some((created_at, c4)) = u64::read_bytes(b, c3) else {
            return None;
        };
        proof {
            assert(w.skip(c4 - pos) =~= b@.skip(c4 as int));
        }
        let Some((expires_at, c5)) = u64::read_bytes(b, c4) else {
            return None;
        };
        Some((TestServer { server_id, user_id, name, created_at, expires_at }, c5))
    }

    fn cclone(&self) -> (c: Self) {
        TestServer {
            server_id: self.server_id.cclone(),
            user_id: self.user_id,
            name: self.name.cclone(),
            created_at: self.created_at,
            expires_at: self.expires_at,
        }
    }
}

/// No two stored servers carry the same identifier.
pub open spec fn server_ids_unique(s: Seq<TestServerM>) -> bool {
    forall|i: int, j: int| 0 <= i < j < s.len() ==> s[i].server_id != s[j].server_id
}

/// Model of the test-server document.
pub ghost struct TestingDatabaseM {
    pub servers: Seq<TestServerM>,
    pub user_limits: Map<u64, usize>,
}

/// The persisted test-server document: provisioned servers and per-user
/// provisioning limits.
#[derive(Debug)]
pub struct TestingDatabase {
    pub servers: Vec<TestServer>,
    pub user_limits: Assoc<usize>,
}

impl Codec for TestingDatabase {
    type M = TestingDatabaseM;

    open spec fn model(&self) -> TestingDatabaseM {
        TestingDatabaseM { servers: self.servers.model(), user_limits: self.user_limits.model() }
    }

    open spec fn cinv(&self) -> bool {
        self.servers.cinv() && self.user_limits.cinv() && server_ids_unique(self.servers.model())
    }

    open spec fn enc(&self) -> Seq<u8> {
        self.servers.enc() + self.user_limits.enc()
    }

    open spec fn dec(b: Seq<u8>) -> Option<(TestingDatabaseM, int)> {
        match dec_at::<Vec<TestServer>>(b, 0) {
            None => None,
            Some((servers, p1)) => match dec_at::<Assoc<usize>>(b, p1) {
                None => None,
                Some((user_limits, p2)) => if server_ids_unique(servers) {
                    Some((TestingDatabaseM { servers, user_limits }, p2))
                } else {
                    None
                },
            },
        }
    }

    proof fn lemma_dec_span(b: Seq<u8>) {
        lemma_dec_at_span::<Vec<TestServer>>(b, 0);
        if let Some((_, p1)) = dec_at::<Vec<TestServer>>(b, 0) {
            lemma_dec_at_span::<Assoc<usize>>(b, p1);
        }
    }

    #[verifier::rlimit(100)]
    proof fn lemma_dec_enc(&self, rest: Seq<u8>) {
        let w = self.enc() + rest;
        let e1 = self.servers.enc();
        let e2 = self.user_limits.enc();
        let q1 = e1.len() as int;
        let q2 = q1 + e2.len();
        assert(w.subrange(0, q1) =~= e1);
        lemma_dec_at::<Vec<TestServer>>(self.servers, w, 0);
        assert(w.subrange(q1, q2) =~= e2);
        lemma_dec_at::<Assoc<usize>>(self.user_limits, w, q1);
    }

    fn write_bytes(&self, out: &mut Vec<u8>) {
        self.servers.write_bytes(out);
        self.user_limits.write_bytes(out);
        proof {
            assert(final(out)@ =~= old(out)@ + self.enc());
        }
    }

    fn read_bytes(b: &[u8], pos: usize) -> (r: Option<(Self, usize)>) {
        let ghost w = b@.skip(pos as int);
        proof {
            assert(w.skip(0) =~= w);
        }
        let Some((servers, c1)) = <Vec<TestServer> as Codec>::read_bytes(b, pos) else {
            return None;
        };
        proof {
            assert(w.skip(c1 - pos) =~= b@.skip(c1 as int));
        }
        let Some((user_limits, c2)) = <Assoc<usize> as Codec>::read_bytes(b, c1) else {
            return None;
        };
        // check identifier uniqueness; a duplicate means a malformed record
        let ghost m = servers.model();
        proof {
            assert(w.skip(0) =~= w);
            assert(dec_at::<Vec<TestServer>>(w, 0) == Some((m, c1 - pos)));
            assert(dec_at::<Assoc<usize>>(w, c1 - pos) == Some((user_limits.model(), c2 - pos)));
        }
        let n = servers.len();
        let mut i: usize = 0;
        while i < n
            invariant
                w == b@.skip(pos as int),
                m == servers.model(),
                n == m.len(),
                0 <= i <= n,
                dec_at::<Vec<TestServer>>(w, 0) == Some((m, c1 - pos)),
                dec_at::<Assoc<usize>>(w, c1 - pos) == Some((user_limits.model(), c2 - pos)),
                forall|a: int, c: int| 0 <= a < i && a < c < n ==> m[a].server_id
                    != m[c].server_id,
            decreases n - i,
        {
            let mut j: usize = i + 1;
            while j < n
                invariant
                    w == b@.skip(pos as int),
                    m == servers.model(),
                    n == m.len(),
                    0 <= i < j <= n,
                    dec_at::<Vec<TestServer>>(w, 0) == Some((m, c1 - pos)),
                    dec_at::<Assoc<usize>>(w, c1 - pos) == Some(
                        (user_limits.model(), c2 - pos),
                    ),
                    forall|l: int| i < l < j ==> m[l].server_id != m[i as int].server_id,
                decreases n - j,
            {
                proof {
                    assert(m[i as int].server_id == servers@[i as int].server_id@);
                    assert(m[j as int].server_id == servers@[j as int].server_id@);
                }
                if text_eq(servers[j].server_id.as_str(), servers[i].server_id.as_str()) {
                    proof {
                        assert(m[i as int].server_id == m[j as int].server_id);
                        assert(!server_ids_unique(m));
                    }
                    return None;
                }
                j = j + 1;
            }
            i = i + 1;
        }
        proof {
            assert(server_ids_unique(m));
        }
        Some((TestingDatabase { servers, user_limits }, c2))
    }

    fn cclone(&self) -> (c: Self) {
        TestingDatabase {
            servers: self.servers.cclone(),
            user_limits: self.user_limits.cclone(),
        }
    }
}

impl Document for TestingDatabase {
    open spec fn default_m() -> TestingDatabaseM {
        TestingDatabaseM { servers: Seq::empty(), user_limits: Map::empty() }
    }

    fn default_doc() -> (d: Self) {
        let d = TestingDatabase { servers: Vec::new(), user_limits: Assoc::new() };
        proof {
            d.user_limits.lemma_view_def();
            assert(d.servers.model() =~= Seq::<TestServerM>::empty());
        }
        d
    }
}

/// Some stored server carries this identifier.
pub open spec fn has_server(servers: Seq<TestServerM>, id: Seq<char>) -> bool {
    exists|i: int| 0 <= i < servers.len() && servers[i].server_id == id
}

/// The servers a user holds, in storage order.
pub open spec fn servers_of(servers: Seq<TestServerM>, user_id: u64) -> Seq<TestServerM>
    decreases servers.len(),
{
    if servers.len() == 0 {
        Seq::empty()
    } else {
        servers_of(servers.drop_last(), user_id) + (if servers.last().user_id == user_id {
            seq![servers.last()]
        } else {
            Seq::empty()
        })
    }
}

proof fn lemma_servers_of_take_step(servers: Seq<TestServerM>, user_id: u64, i: int)
    requires
        0 <= i < servers.len(),
    ensures
        servers_of(servers.take(i + 1), user_id) == servers_of(servers.take(i), user_id) + (
        if servers[i].user_id == user_id {
            seq![servers[i]]
        } else {
            Seq::<TestServerM>::empty()
        }),
{
    assert(servers.take(i + 1).drop_last() =~= servers.take(i));
    assert(servers.take(i + 1).last() == servers[i]);
}

impl TestingDatabase {
    fn index_of_server(&self, server_id: &str) -> (r: Option<usize>)
        ensures
            match r {
                Some(i) => i < self.model().servers.len() && self.model().servers[
                    i as int].server_id == server_id@ && (forall|l: int|
                    0 <= l < i ==> self.model().servers[l].server_id != server_id@),
                None => !has_server(self.model().servers, server_id@),
            },
    {
        let n = self.servers.len();
        let mut i: usize = 0;
        while i < n
            invariant
                n == self.model().servers.len(),
                0 <= i <= n,
                forall|l: int| 0 <= l < i ==> self.model().servers[l].server_id != server_id@,
            decreases n - i,
        {
            if text_eq(self.servers[i].server_id.as_str(), server_id) {
                return Some(i);
            }
            i = i + 1;
        }
        None
    }

    /// The first stored server a user holds, if any.
    pub fn get_user_server(&self, user_id: u64) -> (r: Option<TestServer>)
        requires
            self.cinv(),
        ensures
            match r {
                Some(s) => (exists|i: int|
                    0 <= i < self.model().servers.len() && #[trigger] self.model().servers[i]
                        == s.model() && self.model().servers[i].user_id == user_id) && s.cinv(),
                None => forall|i: int|
                    0 <= i < self.model().servers.len() ==> #[trigger] self.model().servers[
                        i].user_id != user_id,
            },
    {
        let n = self.servers.len();
        let mut i: usize = 0;
        while i < n
            invariant
                self.cinv(),
                n == self.model().servers.len(),
                0 <= i <= n,
                forall|l: int|
                    0 <= l < i ==> #[trigger] self.model().servers[l].user_id != user_id,
            decreases n - i,
        {
            if self.servers[i].user_id == user_id {
                let s = self.servers[i].cclone();
                proof {
                    assert(self.model().servers[i as int] == s.model());
                }
                return Some(s);
            }
            i = i + 1;
        }
        None
    }

    /// Stores a server, replacing any stored server with the same
    /// identifier.
    pub fn add_server(&mut self, server: TestServer)
        requires
            old(self).cinv(),
            server.cinv(),
        ensures
            final(self).cinv(),
            final(self).model().user_limits == old(self).model().user_limits,
            ({
                let old_servers = old(self).model().servers;
                if has_server(old_servers, server.model().server_id) {
                    exists|i: int|
                        0 <= i < old_servers.len() && old_servers[i].server_id
                            == server.model().server_id && (forall|l: int|
                            0 <= l < i ==> old_servers[l].server_id != server.model().server_id)
                            && final(self).model().servers == #[trigger] old_servers.remove(
                            i,
                        ).push(server.model())
                } else {
                    final(self).model().servers == old_servers.push(server.model())
                }
            }),
    {
        let ghost sm = server.model();
        let found = self.index_of_server(server.server_id.as_str());
        match found {
            Some(i) => {
                let ghost before = self.servers.model();
                let _ = self.servers.remove(i);
                proof {
                    assert(self.servers.model() =~= before.remove(i as int));
                }
                self.servers.push(server);
                proof {
                    assert(self.servers.model() =~= before.remove(i as int).push(sm));
                    assert(has_server(old(self).model().servers, sm.server_id));
                }
            },
            None => {
                self.servers.push(server);
                proof {
                    assert(self.servers.model() =~= old(self).model().servers.push(sm));
                }
            },
        }
    }

    /// Drops the server with the given identifier, if one is stored.
    pub fn remove_server(&mut self, server_id: &str)
        requires
            old(self).cinv(),
        ensures
            final(self).cinv(),
            final(self).model().user_limits == old(self).model().user_limits,
            ({
                let old_servers = old(self).model().servers;
                if has_server(old_servers, server_id@) {
                    exists|i: int|
                        0 <= i < old_servers.len() && old_servers[i].server_id == server_id@ && (
                        forall|l: int| 0 <= l < i ==> old_servers[l].server_id != server_id@)
                            && final(self).model().servers == #[trigger] old_servers.remove(i)
                } else {
                    final(self).model().servers == old_servers
                }
            }),
    {
        let found = self.index_of_server(server_id);
        match found {
            Some(i) => {
                let ghost before = self.servers.model();
                let _ = self.servers.remove(i);
                proof {
                    assert(self.servers.model() =~= before.remove(i as int));
                    assert(has_server(old(self).model().servers, server_id@));
                }
            },
            None => {},
        }
    }

    /// Moves the expiry of the server with the given identifier, or reports
    /// that no such server is stored.
    pub fn extend_server(&mut self, server_id: &str, expires_at: u64) -> (r: Result<(), String>)
        requires
            old(self).cinv(),
        ensures
            final(self).cinv(),
            final(self).model().user_limits == old(self).model().user_limits,
            match r {
                Ok(()) => exists|i: int|
                    #![trigger old(self).model().servers[i]]
                    0 <= i < old(self).model().servers.len() && old(self).model().servers[
                        i].server_id == server_id@ && final(self).model().servers == old(
                        self,
                    ).model().servers.update(
                        i,
                        (TestServerM { expires_at, ..old(self).model().servers[i] }),
                    ),
                Err(m) => !has_server(old(self).model().servers, server_id@) && m@
                    == "Server not found"@ && final(self).model() == old(self).model(),
            },
    {
        let found = self.index_of_server(server_id);
        match found {
            Some(i) => {
                let ghost before = self.servers.model();
                let old_entry = self.servers.remove(i);
                let new_entry = TestServer { expires_at, ..old_entry };
                self.servers.insert(i, new_entry);
                proof {
                    assert(self.servers.model() =~= before.update(
                        i as int,
                        (TestServerM { expires_at, ..before[i as int] }),
                    ));
                }
                Ok(())
            },
            None => Err("Server not found".to_owned()),
        }
    }

    /// Every stored server the user holds, in storage order.
    pub fn get_user_servers(&self, user_id: u64) -> (r: Vec<TestServer>)
        requires
            self.cinv(),
        ensures
            r.model() == servers_of(self.model().servers, user_id),
            r.cinv(),
    {
        let ghost all = self.model().servers;
        let n = self.servers.len();
        let mut out: Vec<TestServer> = Vec::new();
        let mut i: usize = 0;
        proof {
            assert(all.take(0) =~= Seq::<TestServerM>::empty());
            assert(out.model() =~= servers_of(all.take(0), user_id));
        }
        while i < n
            invariant
                self.cinv(),
                all == self.model().servers,
                n == all.len(),
                0 <= i <= n,
                out.model() == servers_of(all.take(i as int), user_id),
                out.cinv(),
            decreases n - i,
        {
            proof {
                lemma_servers_of_take_step(all, user_id, i as int);
            }
            if self.servers[i].user_id == user_id {
                out.push(self.servers[i].cclone());
                proof {
                    assert(out.model() =~= servers_of(all.take(i + 1), user_id));
                }
            } else {
                proof {
                    assert(out.model() =~= servers_of(all.take(i + 1), user_id));
                }
            }
            i = i + 1;
        }
        proof {
            assert(all.take(n as int) =~= all);
        }
        out
    }

    /// The user's provisioning limit; one server is allowed by default.
    pub fn get_user_limit(&self, user_id: u64) -> (r: usize)
        requires
            self.cinv(),
        ensures
            self.model().user_limits.contains_key(user_id) ==> r == self.model().user_limits[
                user_id],
            !self.model().user_limits.contains_key(user_id) ==> r == 1,
    {
        proof {
            self.user_limits.lemma_view_def();
        }
        match self.user_limits.get(user_id) {
            Some(l) => *l,
            None => 1,
        }
    }

    /// Sets the user's provisioning limit; the default limit of one is kept
    /// by dropping the entry.
    pub fn set_user_limit(&mut self, user_id: u64, limit: usize)
        requires
            old(self).cinv(),
        ensures
            final(self).cinv(),
            final(self).model().servers == old(self).model().servers,
            final(self).model().user_limits == if limit == 1 {
                old(self).model().user_limits.remove(user_id)
            } else {
                old(self).model().user_limits.insert(user_id, limit)
            },
    {
        proof {
            self.user_limits.lemma_view_def();
        }
        if limit == 1 {
            let _ = self.user_limits.remove(user_id);
        } else {
            self.user_limits.insert(user_id, limit);
        }
        proof {
            self.user_limits.lemma_view_def();
        }
    }
}

} // verus!
// ---- Expiry ----

verus! {

/// The servers whose lease ended at or before `now`, in storage order.
pub open spec fn expired_of(servers: Seq<TestServerM>, now: u64) -> Seq<TestServerM>
    decreases servers.len(),
{
    if servers.len() == 0 {
        Seq::empty()
    } else {
        expired_of(servers.drop_last(), now) + (if servers.last().expires_at <= now {
            seq![servers.last()]
        } else {
            Seq::empty()
        })
    }
}

proof fn lemma_expired_of_take_step(servers: Seq<TestServerM>, now: u64, i: int)
    requires
        0 <= i < servers.len(),
    ensures
        expired_of(servers.take(i + 1), now) == expired_of(servers.take(i), now) + (
        if servers[i].expires_at <= now {
            seq![servers[i]]
        } else {
            Seq::<TestServerM>::empty()
        }),
{
    assert(servers.take(i + 1).drop_last() =~= servers.take(i));
    assert(servers.take(i + 1).last() == servers[i]);
}

impl TestingDatabase {
    /// The servers due for teardown at time `now`, in storage order.
    pub fn expired_servers(&self, now: u64) -> (r: Vec<TestServer>)
        requires
            self.cinv(),
        ensures
            r.model() == expired_of(self.model().servers, now),
            r.cinv(),
    {
        let ghost all = self.model().servers;
        let n = self.servers.len();
        let mut out: Vec<TestServer> = Vec::new();
        let mut i: usize = 0;
        proof {
            assert(all.take(0) =~= Seq::<TestServerM>::empty());
            assert(out.model() =~= expired_of(all.take(0), now));
        }
        while i < n
            invariant
                self.cinv(),
                all == self.model().servers,
                n == all.len(),
                0 <= i <= n,
                out.model() == expired_of(all.take(i as int), now),
                out.cinv(),
            decreases n - i,
        {
            proof {
                lemma_expired_of_take_step(all, now, i as int);
            }
            if self.servers[i].expires_at <= now {
                out.push(self.servers[i].cclone());
                proof {
                    assert(out.model() =~= expired_of(all.take(i + 1), now));
                }
            } else {
                proof {
                    assert(out.model() =~= expired_of(all.take(i + 1), now));
                }
            }
            i = i + 1;
        }
        proof {
            assert(all.take(n as int) =~= all);
        }
        out
    }
}

} // verus!
