//! The decrypt-and-average pass over one cycle's encrypted updates.
//!
//! The pass is a state machine driven by its caller: for each stored update in
//! turn the caller resolves the client's identity, obtains the client's key
//! from the derivation service, opens the update, decodes it, and reports the
//! decoded vector's length back; the pass decides whether the vector is
//! summed. Averaging and encoding of the model happen at the caller.
use vstd::prelude::*;
use crate::error::AggregatorError;
use aes_gcm::aead::{Aead, KeyInit};
use aes_gcm::Aes256Gcm;

verus! {

/// Length of the nonce that prefixes every encrypted update.
pub const NONCE_LEN: usize = 12;

/// Length of an AES-256 key.
pub const KEY_LEN: usize = 32;

/// AES-256-GCM opening (no associated data) of `ciphertext` under a 32-byte
/// `key` and a 12-byte `nonce`: the plaintext, or `None` when authentication fails.
pub uninterp spec fn aes256_gcm_open(key: Seq<u8>, nonce: Seq<u8>, ciphertext: Seq<u8>) -> Option<Seq<u8>>;

/// Relies on aes_gcm's `Aes256Gcm::new` and `Aead::decrypt`: for a 32-byte key
/// and a 12-byte nonce the outcome is a function of the three byte strings.
#[verifier::external_body]
fn aes256_gcm_decrypt(key: &[u8], nonce: &[u8], ciphertext: &[u8]) -> (r: Option<Vec<u8>>)
    requires
        key@.len() == KEY_LEN,
        nonce@.len() == NONCE_LEN,
    ensures
        match r {
            Some(p) => aes256_gcm_open(key@, nonce@, ciphertext@) == Some(p@),
            None => aes256_gcm_open(key@, nonce@, ciphertext@) is None,
        },
{
    let cipher = Aes256Gcm::new(aes_gcm::Key::<Aes256Gcm>::from_slice(key));
    cipher.decrypt(aes_gcm::Nonce::from_slice(nonce), ciphertext).ok()
}

/// Outcome of opening an encrypted update `blob` (nonce, then ciphertext and
/// tag) with `key`: an error for key material that is no AES-256 key, `None`
/// for a blob shorter than a nonce or one that fails authentication, else the
/// plaintext.
pub open spec fn opened(key: Seq<u8>, blob: Seq<u8>) -> Result<Option<Seq<u8>>, AggregatorError> {
    if key.len() != KEY_LEN {
        Err(AggregatorError::InvalidKeyMaterial)
    } else if blob.len() < NONCE_LEN {
        Ok(None)
    } else {
        Ok(aes256_gcm_open(key, blob.take(NONCE_LEN as int), blob.skip(NONCE_LEN as int)))
    }
}

/// Opens an encrypted update with the key derived for its sender.
pub fn open_update(key: &Vec<u8>, blob: &Vec<u8>) -> (r: Result<Option<Vec<u8>>, AggregatorError>)
    ensures
        match (r, opened(key@, blob@)) {
            (Err(e), Err(f)) => e == f,
            (Ok(None), Ok(None)) => true,
            (Ok(Some(p)), Ok(Some(q))) => p@ == q,
            _ => false,
        },
{
    if key.len() != KEY_LEN {
        return Err(AggregatorError::InvalidKeyMaterial);
    }
    if blob.len() < NONCE_LEN {
        return Ok(None);
    }
    let (nonce, ciphertext) = blob.as_slice().split_at(NONCE_LEN);
    assert(nonce@ =~= blob@.take(NONCE_LEN as int));
    assert(ciphertext@ =~= blob@.skip(NONCE_LEN as int));
    Ok(aes256_gcm_decrypt(key.as_slice(), nonce, ciphertext))
}

/// Vector length that the pass expects after seeing a vector of length `len`:
/// the first decoded vector fixes it, whatever its length (even 0), and it
/// never changes after that.
pub open spec fn next_model_len(cur: Option<nat>, len: nat) -> nat {
    match cur {
        None => len,
        Some(l) => l,
    }
}

/// What a pass is, mathematically.
pub struct PassView {
    /// The cycle whose updates are aggregated.
    pub cycle: u64,
    /// The cycle's updates, by ascending client id.
    pub updates: Seq<(u64, Seq<u8>)>,
    /// The registry as it stood when the pass began, indexed by client id.
    pub clients: Seq<Seq<u8>>,
    /// How many updates have been dealt with.
    pub cursor: nat,
    /// Length of the running sum, fixed by the first decoded vector.
    pub model_len: Option<nat>,
    /// How many vectors have been admitted into the sum.
    pub accepted: nat,
}

/// One run of the decrypt-and-average pass.
pub struct PlainPass {
    cycle: u64,
    updates: Vec<(u64, Vec<u8>)>,
    clients: Vec<Vec<u8>>,
    cursor: usize,
    model_len: Option<usize>,
    accepted: usize,
}

/// Views of the stored updates.
pub open spec fn updates_view(u: Seq<(u64, Vec<u8>)>) -> Seq<(u64, Seq<u8>)> {
    u.map_values(|e: (u64, Vec<u8>)| (e.0, e.1@))
}

/// Views of the registered identities.
pub open spec fn identities_view(c: Seq<Vec<u8>>) -> Seq<Seq<u8>> {
    c.map_values(|e: Vec<u8>| e@)
}

impl View for PlainPass {
    type V = PassView;

    closed spec fn view(&self) -> PassView {
        PassView {
            cycle: self.cycle,
            updates: updates_view(self.updates@),
            clients: identities_view(self.clients@),
            cursor: self.cursor as nat,
            model_len: match self.model_len {
                None => None,
                Some(l) => Some(l as nat),
            },
            accepted: self.accepted as nat,
        }
    }
}

impl PlainPass {
    /// The pass's invariant: the cursor stays within the updates and at most
    /// every update dealt with was admitted.
    pub open spec fn wf(&self) -> bool {
        &&& self@.cursor <= self@.updates.len()
        &&& self@.accepted <= self@.cursor
    }

    /// Starts a pass over `updates` of `cycle`, resolving identities against `clients`.
    pub fn new(cycle: u64, updates: Vec<(u64, Vec<u8>)>, clients: Vec<Vec<u8>>) -> (r: PlainPass)
        ensures
            r.wf(),
            r@.cycle == cycle,
            r@.updates == updates_view(updates@),
            r@.clients == identities_view(clients@),
            r@.cursor == 0,
            r@.model_len is None,
            r@.accepted == 0,
    {
        PlainPass { cycle, updates, clients, cursor: 0, model_len: None, accepted: 0 }
    }

    /// The cycle whose updates this pass aggregates.
    pub fn cycle(&self) -> (r: u64)
        ensures
            r == self@.cycle,
    {
        self.cycle
    }

    /// Whether every update has been dealt with.
    pub fn is_finished(&self) -> (r: bool)
        requires
            self.wf(),
        ensures
            r == (self@.cursor == self@.updates.len()),
    {
        self.cursor == self.updates.len()
    }

    /// Client id of the update to deal with next.
    pub fn next_client(&self) -> (r: u64)
        requires
            self.wf(),
            self@.cursor < self@.updates.len(),
        ensures
            r == self@.updates[self@.cursor as int].0,
    {
        self.updates[self.cursor].0
    }

    /// Identity of `client_id` in the registry as it stood when the pass began.
    pub fn identity_of(&self, client_id: u64) -> (r: Result<Vec<u8>, AggregatorError>)
        ensures
            match r {
                Ok(id) => client_id < self@.clients.len() && id@ == self@.clients[client_id as int],
                Err(e) => client_id >= self@.clients.len() && e == AggregatorError::UnknownClientId,
            },
    {
        if client_id < self.clients.len() as u64 {
            Ok(self.clients[client_id as usize].clone())
        } else {
            Err(AggregatorError::UnknownClientId)
        }
    }

    /// Opens the next update with the key derived for its sender.
    pub fn open_next(&self, key: &Vec<u8>) -> (r: Result<Option<Vec<u8>>, AggregatorError>)
        requires
            self.wf(),
            self@.cursor < self@.updates.len(),
        ensures
            match (r, opened(key@, self@.updates[self@.cursor as int].1)) {
                (Err(e), Err(f)) => e == f,
                (Ok(None), Ok(None)) => true,
                (Ok(Some(p)), Ok(Some(q))) => p@ == q,
                _ => false,
            },
    {
        open_update(key, &self.updates[self.cursor].1)
    }

    /// Passes over the next update, which could not be opened.
    pub fn skip(&mut self)
        requires
            old(self).wf(),
            old(self)@.cursor < old(self)@.updates.len(),
        ensures
            final(self).wf(),
            final(self)@ == (PassView { cursor: old(self)@.cursor + 1, ..old(self)@ }),
    {
        assert(self.updates.len() <= usize::MAX);
        self.cursor = self.cursor + 1;
    }

    /// Reports that the next update decoded to a vector of `len` values, and
    /// returns whether that vector is to be added to the sum: the first
    /// decoded vector fixes the length, even when empty, and only vectors of
    /// that length count.
    pub fn report_decoded(&mut self, len: usize) -> (admitted: bool)
        requires
            old(self).wf(),
            old(self)@.cursor < old(self)@.updates.len(),
        ensures
            final(self).wf(),
            admitted == (next_model_len(old(self)@.model_len, len as nat) == len),
            final(self)@ == (PassView {
                cursor: old(self)@.cursor + 1,
                model_len: Some(next_model_len(old(self)@.model_len, len as nat)),
                accepted: if admitted { old(self)@.accepted + 1 } else { old(self)@.accepted },
                ..old(self)@
            }),
    {
        assert(self.updates.len() <= usize::MAX);
        let fixed = match self.model_len {
            None => len,
            Some(l) => l,
        };
        self.model_len = Some(fixed);
        let admitted = fixed == len;
        if admitted {
            self.accepted = self.accepted + 1;
        }
        self.cursor = self.cursor + 1;
        admitted
    }

    /// How many vectors have been admitted into the sum.
    pub fn accepted(&self) -> (r: usize)
        ensures
            r == self@.accepted,
    {
        self.accepted
    }

    /// Length of the running sum, once the first decoded vector fixed it.
    pub fn model_len(&self) -> (r: Option<usize>)
        ensures
            r == match self@.model_len {
                None => None,
                Some(l) => Some(l as usize),
            },
    {
        self.model_len
    }
}

} // verus!
