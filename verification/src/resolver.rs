//! Resolution of a tagged identifier to its incoming call edges.
//!
//! Resolution consults the link cache first; a fresh identifier is
//! resolved through a two-phase exchange with the code-intelligence
//! server: a prepare request, retried a bounded number of times while
//! the server transiently answers with no items, then an incoming-calls
//! request. The driver performing the exchanges holds a [`ResolveSession`],
//! does what [`ResolveSession::next_request`] asks, and feeds each reply
//! back; the session decides every step, so the retry bound and the
//! downgrade of server trouble to "zero incoming calls" are part of its
//! contract. The final (possibly empty) reference list is persisted
//! unconditionally before it is handed out.

use vstd::prelude::*;
use crate::codec::{
    canonical_key, decode_references, encode_references, lemma_encode_identifier_len,
    lemma_references_round_trip, spec_decode_references, spec_encode_identifier,
    spec_encode_references, wf_references,
};
use crate::model::{Identifier, IdentifierModel, IdentifierReference, ReferenceModel,
    references_model};
use crate::store::{
    links_of, open_links_partition, partition_get, partition_insert, partition_len,
    recreate_links_partition, StoreFailure, MAX_KEY_BYTES, MAX_VALUE_BYTES,
};

verus! {

/// Total prepare attempts allowed before a symbol is recorded as isolated:
/// one initial attempt and five retries.
pub const MAX_PREPARE_ATTEMPTS: u8 = 6;

/// How long the driver sleeps between two prepare attempts, in seconds.
pub const RETRY_DELAY_SECS: u64 = 1;

/// Why the current resolution cannot go on. Transient server trouble is
/// never an error: it is absorbed into an empty result. These are the
/// unrecoverable conditions.
#[derive(Debug)]
pub enum ResolveError {
    /// The underlying store failed; cache integrity cannot be assumed.
    Store(StoreFailure),
    /// A cache entry is not the encoding of any reference list: a protocol
    /// or format mismatch, not to be papered over with a default.
    MalformedEntry,
    /// The identifier's canonical key, or the encoded reference list,
    /// exceeds the store's documented size limits; fatal for this
    /// identifier's resolution, as an unresolvable source path is.
    Oversized,
}

/// What the driver must send to the code-intelligence server next.
pub enum ServerRequest {
    /// A prepare-call-hierarchy request at the identifier's declaration
    /// position.
    Prepare { path: String, line: u32, character: u32 },
    /// An incoming-calls request for the item reconstructed from the
    /// identifier.
    IncomingCalls { item: Identifier },
}

#[derive(Debug, Clone, Copy, PartialEq, Eq, Structural)]
pub enum ResolvePhase {
    /// Waiting for a prepare reply.
    Preparing,
    /// Prepare produced items; waiting for the incoming-calls reply.
    AwaitingIncoming,
    /// The reference list is settled and ready to persist.
    Finished,
}

/// The outcome the protocol prescribes for an empty prepare reply arriving
/// with the given number of attempts already made.
pub enum PrepareOutcome {
    /// Sleep and ask again, now with this many attempts made.
    Retry(nat),
    /// The bound is spent: record the symbol as isolated, with zero
    /// incoming calls, and skip the incoming-calls phase.
    Isolated,
}

/// One empty prepare reply moves the attempt counter, or ends the phase.
pub open spec fn spec_prepare_step(attempts: nat) -> PrepareOutcome {
    if attempts + 1 >= MAX_PREPARE_ATTEMPTS {
        PrepareOutcome::Isolated
    } else {
        PrepareOutcome::Retry(attempts + 1)
    }
}

/// How many empty prepare replies a session with this many attempts made
/// will consume before it settles on "isolated".
pub open spec fn spec_empty_replies_until_isolated(attempts: nat) -> nat
    decreases MAX_PREPARE_ATTEMPTS - attempts,
{
    if attempts + 1 >= MAX_PREPARE_ATTEMPTS {
        1
    } else {
        1 + spec_empty_replies_until_isolated(attempts + 1)
    }
}

/// Retry bound respected: a fresh session given only empty prepare replies
/// settles after exactly `MAX_PREPARE_ATTEMPTS` of them.
pub proof fn lemma_retry_bound()
    ensures
        spec_empty_replies_until_isolated(0) == MAX_PREPARE_ATTEMPTS,
{
    assert(spec_empty_replies_until_isolated(5) == 1);
    assert(spec_empty_replies_until_isolated(4) == 2);
    assert(spec_empty_replies_until_isolated(3) == 3);
    assert(spec_empty_replies_until_isolated(2) == 4);
    assert(spec_empty_replies_until_isolated(1) == 5);
}

/// One in-progress resolution of one identifier: phase two and three of
/// the protocol, between the cache check and the persist step.
pub struct ResolveSession {
    pub ident: Identifier,
    /// Prepare attempts answered empty so far.
    pub attempts: u8,
    pub phase: ResolvePhase,
    /// The settled reference list; meaningful once `phase` is `Finished`.
    pub refs: Vec<IdentifierReference>,
    /// The prepare bound was spent: "no incoming calls" here means "could
    /// not determine callers", to report at a lower severity.
    pub isolated: bool,
    /// The incoming-calls reply was a protocol error, downgraded to "no
    /// incoming calls".
    pub degraded: bool,
}

impl ResolveSession {
    pub open spec fn wf(self) -> bool {
        self.phase is Preparing ==> self.attempts < MAX_PREPARE_ATTEMPTS
    }

    /// Begin resolving an identifier that the cache does not know.
    pub fn start(ident: &Identifier) -> (s: ResolveSession)
        ensures
            s.ident@ == ident@,
            s.attempts == 0,
            s.phase is Preparing,
            s.refs@ == Seq::<IdentifierReference>::empty(),
            !s.isolated,
            !s.degraded,
            s.wf(),
    {
        ResolveSession {
            ident: ident.clone(),
            attempts: 0,
            phase: ResolvePhase::Preparing,
            refs: Vec::new(),
            isolated: false,
            degraded: false,
        }
    }

    /// What the driver should send now, or nothing once the session is
    /// finished.
    pub fn next_request(&self) -> (r: Option<ServerRequest>)
        ensures
            self.phase is Preparing ==> (r matches Some(
                ServerRequest::Prepare { path, line, character },
            ) && path@ == self.ident@.path && line == self.ident@.range.start.line && character
                == self.ident@.range.start.character),
            self.phase is AwaitingIncoming ==> (r matches Some(
                ServerRequest::IncomingCalls { item },
            ) && item@ == self.ident@),
            self.phase is Finished ==> r is None,
    {
        match self.phase {
            ResolvePhase::Preparing => Some(
                ServerRequest::Prepare {
                    path: self.ident.path.clone(),
                    line: self.ident.range.start.line,
                    character: self.ident.range.start.character,
                },
            ),
            ResolvePhase::AwaitingIncoming => Some(
                ServerRequest::IncomingCalls { item: self.ident.clone() },
            ),
            ResolvePhase::Finished => None,
        }
    }

    /// Take the prepare reply: the number of call-hierarchy items it held.
    /// A non-empty reply moves to the incoming-calls phase. An empty reply
    /// consumes one attempt; when the bound is spent the symbol is settled
    /// as isolated with zero incoming calls, which is a terminal result,
    /// not an error.
    pub fn on_prepare(&mut self, items: usize)
        requires
            old(self).phase is Preparing,
            old(self).wf(),
        ensures
            final(self).ident@ == old(self).ident@,
            final(self).degraded == old(self).degraded,
            final(self).wf(),
            items > 0 ==> final(self).phase is AwaitingIncoming && final(self).attempts == old(
                self,
            ).attempts && final(self).refs@ == old(self).refs@ && final(self).isolated == old(
                self,
            ).isolated,
            items == 0 ==> match spec_prepare_step(old(self).attempts as nat) {
                PrepareOutcome::Retry(a) => final(self).phase is Preparing && final(self).attempts
                    == a && final(self).refs@ == old(self).refs@ && final(self).isolated == old(
                    self,
                ).isolated,
                PrepareOutcome::Isolated => final(self).phase is Finished && final(self).refs@
                    == Seq::<IdentifierReference>::empty() && final(self).isolated,
            },
    {
        if items > 0 {
            self.phase = ResolvePhase::AwaitingIncoming;
        } else if self.attempts + 1 >= MAX_PREPARE_ATTEMPTS {
            self.phase = ResolvePhase::Finished;
            self.refs = Vec::new();
            self.isolated = true;
        } else {
            self.attempts = self.attempts + 1;
        }
    }

    /// Take a successful incoming-calls reply, already converted to
    /// reference edges: they become the settled result.
    pub fn on_incoming_calls(&mut self, calls: Vec<IdentifierReference>)
        requires
            old(self).phase is AwaitingIncoming,
        ensures
            final(self).ident@ == old(self).ident@,
            final(self).phase is Finished,
            final(self).refs@ == calls@,
            final(self).isolated == old(self).isolated,
            final(self).degraded == old(self).degraded,
            final(self).wf(),
    {
        self.refs = calls;
        self.phase = ResolvePhase::Finished;
    }

    /// Take a protocol-level error reply to the incoming-calls request:
    /// downgraded to zero incoming calls, so the resolution still succeeds
    /// and is cached as empty.
    pub fn on_incoming_error(&mut self)
        requires
            old(self).phase is AwaitingIncoming,
        ensures
            final(self).ident@ == old(self).ident@,
            final(self).phase is Finished,
            final(self).refs@ == Seq::<IdentifierReference>::empty(),
            final(self).isolated == old(self).isolated,
            final(self).degraded,
            final(self).wf(),
    {
        self.refs = Vec::new();
        self.degraded = true;
        self.phase = ResolvePhase::Finished;
    }
}

/// The read-first, write-through cache of resolved incoming-call edges,
/// in a partition of the given keyspace.
pub struct CallResolver {
    keyspace: fjall::Keyspace,
    handle: fjall::PartitionHandle,
}

impl CallResolver {
    /// The entries the cache currently holds.
    pub closed spec fn cache(self) -> Map<Seq<u8>, Seq<u8>> {
        links_of(self.handle)
    }

    /// Open (creating if absent) the links partition of the keyspace.
    pub fn new(keyspace: fjall::Keyspace) -> (r: Result<CallResolver, StoreFailure>)
        ensures
            r matches Ok(c) ==> c.cache().dom().finite(),
    {
        let handle = match open_links_partition(&keyspace) {
            Ok(h) => h,
            Err(e) => {
                return Err(e);
            },
        };
        Ok(CallResolver { keyspace, handle })
    }

    /// How many identifiers have a cached resolution.
    pub fn cached(&self) -> (r: Result<usize, StoreFailure>)
        ensures
            r matches Ok(n) ==> n == self.cache().dom().len(),
    {
        partition_len(&self.handle)
    }

    /// Destroy and recreate the partition: the one supported way to
    /// invalidate everything. The old resolver is consumed; the fresh one
    /// holds no entries.
    pub fn cleared(self) -> (r: Result<CallResolver, StoreFailure>)
        ensures
            r matches Ok(c) ==> c.cache() == Map::<Seq<u8>, Seq<u8>>::empty(),
    {
        let CallResolver { keyspace, handle } = self;
        let fresh = match recreate_links_partition(&keyspace, handle) {
            Ok(h) => h,
            Err(e) => {
                return Err(e);
            },
        };
        Ok(CallResolver { keyspace, handle: fresh })
    }

    /// The cache check: the already-resolved edges of this identifier,
    /// or `None` when it was never resolved — distinct from `Some` of an
    /// empty list, which means "resolved, no incoming calls". A stored
    /// entry that decodes to nothing is a malformed-entry failure, and an
    /// identifier whose canonical key does not fit the store's key limit
    /// is rejected as oversized before the store is touched.
    pub fn resolve_cached(&self, ident: &Identifier) -> (r: Result<
        Option<Vec<IdentifierReference>>,
        ResolveError,
    >)
        ensures
            r matches Ok(Some(refs)) ==> self.cache().contains_key(spec_encode_identifier(ident@))
                && spec_decode_references(self.cache()[spec_encode_identifier(ident@)]) == Some(
                references_model(refs@),
            ),
            r matches Ok(None) ==> !self.cache().contains_key(spec_encode_identifier(ident@)),
            r matches Err(e) ==> (e matches ResolveError::MalformedEntry ==> self.cache()
                .contains_key(spec_encode_identifier(ident@)) && spec_decode_references(
                self.cache()[spec_encode_identifier(ident@)],
            ) is None),
            spec_encode_identifier(ident@).len() > MAX_KEY_BYTES ==> (r matches Err(e)
                && e is Oversized),
            r matches Err(e) ==> (e is Oversized <==> spec_encode_identifier(ident@).len()
                > MAX_KEY_BYTES),
    {
        let key = canonical_key(ident);
        if key.len() > MAX_KEY_BYTES {
            return Err(ResolveError::Oversized);
        }
        match partition_get(&self.handle, &key) {
            Err(e) => Err(ResolveError::Store(e)),
            Ok(None) => Ok(None),
            Ok(Some(bytes)) => match decode_references(&bytes) {
                None => Err(ResolveError::MalformedEntry),
                Some(refs) => Ok(Some(refs)),
            },
        }
    }

    /// The persist step: serialize the finished session's reference list
    /// and store it under the identifier's canonical key, unconditionally,
    /// then hand the list out. A key or an encoding that does not fit the
    /// store's documented size limits is rejected as oversized, with the
    /// cache left as it was, before the store is touched.
    pub fn commit(&mut self, session: ResolveSession) -> (r: Result<
        Vec<IdentifierReference>,
        ResolveError,
    >)
        requires
            session.phase is Finished,
        ensures
            r matches Ok(refs) ==> {
                &&& final(self).cache() == old(self).cache().insert(
                    spec_encode_identifier(session.ident@),
                    spec_encode_references(references_model(session.refs@)),
                )
                &&& refs@ == session.refs@
            },
            ({
                let key_len = spec_encode_identifier(session.ident@).len();
                let value_len = spec_encode_references(references_model(session.refs@)).len();
                &&& (key_len > MAX_KEY_BYTES || value_len > MAX_VALUE_BYTES) ==> (r matches Err(e)
                    && e is Oversized)
                &&& r matches Err(e) ==> (e is Oversized <==> (key_len > MAX_KEY_BYTES
                    || value_len > MAX_VALUE_BYTES))
            }),
            r matches Err(e) ==> (e is Oversized ==> final(self).cache() == old(self).cache()),
    {
        let key = canonical_key(&session.ident);
        let data = encode_references(&session.refs);
        proof {
            lemma_encode_identifier_len(session.ident@);
        }
        if key.len() > MAX_KEY_BYTES {
            return Err(ResolveError::Oversized);
        }
        if data.len() as u64 > MAX_VALUE_BYTES {
            return Err(ResolveError::Oversized);
        }
        match partition_insert(&mut self.handle, key, data) {
            Ok(()) => Ok(session.refs),
            Err(e) => Err(ResolveError::Store(e)),
        }
    }
}

/// Cache-key coherence: once a resolution for an identifier is committed,
/// a cache lookup with that identifier's key finds bytes that decode to
/// exactly the committed reference list.
pub proof fn lemma_cached_after_commit(
    m: Map<Seq<u8>, Seq<u8>>,
    ident: IdentifierModel,
    rs: Seq<ReferenceModel>,
)
    requires
        wf_references(rs),
    ensures
        ({
            let m2 = m.insert(spec_encode_identifier(ident), spec_encode_references(rs));
            &&& m2.contains_key(spec_encode_identifier(ident))
            &&& spec_decode_references(m2[spec_encode_identifier(ident)]) == Some(rs)
        }),
{
    lemma_references_round_trip(rs);
}

/// Idempotence of the cached answer: the cache state and the key determine
/// the resolved reference list exactly, so two resolutions against the
/// same cache return the same edges.
pub proof fn lemma_cached_answer_deterministic(
    m: Map<Seq<u8>, Seq<u8>>,
    ident: IdentifierModel,
    a: Seq<ReferenceModel>,
    b: Seq<ReferenceModel>,
)
    requires
        m.contains_key(spec_encode_identifier(ident)),
        spec_decode_references(m[spec_encode_identifier(ident)]) == Some(a),
        spec_decode_references(m[spec_encode_identifier(ident)]) == Some(b),
    ensures
        a == b,
{
}

} // verus!
