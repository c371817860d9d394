use vstd::prelude::*;

use crate::assoc::Assoc;
use crate::codec::{Codec, check_text, dec_at, lemma_dec_at, lemma_dec_at_span};
use crate::document::Document;

verus! {

/// Model of the account-link document.
pub ghost struct ModrinthDatabaseM {
    pub linked_accounts: Map<u64, Seq<char>>,
}

/// The persisted account links: one outside account name per user id.
#[derive(Debug)]
pub struct ModrinthDatabase {
    pub linked_accounts: Assoc<String>,
}

impl Codec for ModrinthDatabase {
    type M = ModrinthDatabaseM;

    open spec fn model(&self) -> ModrinthDatabaseM {
        ModrinthDatabaseM { linked_accounts: self.linked_accounts.model() }
    }

    open spec fn cinv(&self) -> bool {
        self.linked_accounts.cinv()
    }

    open spec fn enc(&self) -> Seq<u8> {
        self.linked_accounts.enc()
    }

    open spec fn dec(b: Seq<u8>) -> Option<(ModrinthDatabaseM, int)> {
        match dec_at::<Assoc<String>>(b, 0) {
            None => None,
            Some((linked_accounts, p)) => Some((ModrinthDatabaseM { linked_accounts }, p)),
        }
    }

    proof fn lemma_dec_span(b: Seq<u8>) {
        lemma_dec_at_span::<Assoc<String>>(b, 0);
    }

    proof fn lemma_dec_enc(&self, rest: Seq<u8>) {
        let w = self.enc() + rest;
        assert(w.subrange(0, self.linked_accounts.enc().len() as int) =~= self.linked_accounts.enc());
        lemma_dec_at::<Assoc<String>>(self.linked_accounts, w, 0);
    }

    fn write_bytes(&self, out: &mut Vec<u8>) {
        self.linked_accounts.write_bytes(out);
    }

    fn read_bytes(b: &[u8], pos: usize) -> (r: Option<(Self, usize)>) {
        let ghost w = b@.skip(pos as int);
        proof {
            assert(w.skip(0) =~= w);
        }
        match <Assoc<String> as Codec>::read_bytes(b, pos) {
            Some((linked_accounts, p)) => Some((ModrinthDatabase { linked_accounts }, p)),
            None => None,
        }
    }

    fn cclone(&self) -> (c: Self) {
        ModrinthDatabase { linked_accounts: self.linked_accounts.cclone() }
    }
}

impl Document for ModrinthDatabase {
    open spec fn default_m() -> ModrinthDatabaseM {
        ModrinthDatabaseM { linked_accounts: Map::empty() }
    }

    fn default_doc() -> (d: Self) {
        let d = ModrinthDatabase { linked_accounts: Assoc::new() };
        proof {
            d.linked_accounts.lemma_view_def();
        }
        d
    }
}

impl ModrinthDatabase {
    /// Links a user to an account name, replacing any earlier link.
    pub fn link_account(&mut self, discord_id: u64, modrinth_id: String)
        requires
            old(self).cinv(),
        ensures
            final(self).cinv(),
            final(self).model().linked_accounts == old(self).model().linked_accounts.insert(
                discord_id,
                modrinth_id@,
            ),
    {
        proof {
            self.linked_accounts.lemma_view_def();
        }
        check_text(&modrinth_id);
        self.linked_accounts.insert(discord_id, modrinth_id);
        proof {
            self.linked_accounts.lemma_view_def();
        }
    }

    /// Removes a user's link, if any.
    pub fn unlink_account(&mut self, discord_id: u64)
        requires
            old(self).cinv(),
        ensures
            final(self).cinv(),
            final(self).model().linked_accounts == old(self).model().linked_accounts.remove(
                discord_id,
            ),
    {
        proof {
            self.linked_accounts.lemma_view_def();
        }
        let _ = self.linked_accounts.remove(discord_id);
        proof {
            self.linked_accounts.lemma_view_def();
        }
    }

    /// The account name a user is linked to, if any.
    pub fn get_modrinth_id(&self, discord_id: u64) -> (r: Option<String>)
        requires
            self.cinv(),
        ensures
            match r {
                Some(id) => self.model().linked_accounts.contains_key(discord_id) && id@
                    == self.model().linked_accounts[discord_id],
                None => !self.model().linked_accounts.contains_key(discord_id),
            },
    {
        proof {
            self.linked_accounts.lemma_view_def();
        }
        match self.linked_accounts.get(discord_id) {
            Some(id) => Some(id.cclone()),
            None => None,
        }
    }
}

} // verus!
