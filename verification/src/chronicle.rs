//! The chronicle: one replicated document that holds the state of a
//! session, with snapshots, merging and the exchange of changes with peers.
//!
//! A chronicle owns its document. What it knows of a peer's progress is
//! not kept here: each call that talks to a peer takes the session as
//! bytes and hands the new session back, for the caller to keep.

#![allow(non_snake_case)]

use vstd::prelude::*;
use vstd::string::StringExecFns;
use crate::base64::{base64_decode, base64_encode, decode_spec, encode_spec};
use crate::engine::{
    decoded, decoded_settled, doc_changes, doc_head_hashes, doc_load, doc_merge, doc_new, doc_pending,
    doc_save, error_text, generated, heads_of, is_blank, is_fresh, loaded_from, merged, message_bytes,
    message_decode, message_encode, message_error_text, message_of, received, resolved, session_bytes,
    session_decode, session_encode, session_error_text, session_generated, session_new, session_of,
    session_received, sync_generate, sync_receive, Objects,
};
use crate::reader::{read_state, state_read};
use crate::types::{HyperTokenError, HyperTokenState};
use crate::writer::{state_written, transact_state};

verus! {

/// A replicated document that holds the state of one session.
pub struct Chronicle {
    doc: automerge::Automerge,
}

/// What one step of the exchange with a peer hands back.
#[derive(Debug, Clone)]
pub struct SyncOutput {
    /// The message for the peer in the transport encoding, if there is one to send.
    pub message: Option<String>,
    /// The session to keep for this peer, in the transport encoding.
    pub syncState: String,
    /// Whether there is a message.
    pub hasMessage: bool,
}

/// `text` is the transport encoding of some bytes.
pub open spec fn is_encoding(text: Seq<char>) -> bool {
    exists|bytes: Seq<u8>| text == encode_spec(bytes)
}

impl SyncOutput {
    /// The message, where there is one, and the session are encodings of
    /// bytes, and the flag says whether there is a message.
    pub open spec fn well_formed(&self) -> bool {
        &&& self.hasMessage == (self.message is Some)
        &&& is_encoding(self.syncState@)
        &&& self.message is Some ==> is_encoding(self.message->0@)
    }
}

/// Frames what the engine produced in one step of the exchange: the
/// message, if any, and the session, each in the transport encoding.
pub fn sync_output(message: Option<Vec<u8>>, session: Vec<u8>) -> (r: SyncOutput)
    ensures
        r.hasMessage == (message is Some),
        r.syncState@ == encode_spec(session@),
        match message {
            Some(m) => r.message is Some && r.message->0@ == encode_spec(m@),
            None => r.message is None,
        },
        r.well_formed(),
{
    let hasMessage = message.is_some();
    let encoded = match message {
        Some(m) => Some(base64_encode(m.as_slice())),
        None => None,
    };
    SyncOutput { message: encoded, syncState: base64_encode(session.as_slice()), hasMessage }
}

/// The error for what the engine refused: the message says what was
/// tried and then what the engine said of it.
fn crdt_error(what: &str, detail: String) -> (e: HyperTokenError)
    ensures
        e is CrdtError,
        e->CrdtError_0@ == what@ + detail@,
{
    let mut text = what.to_owned();
    text.append(detail.as_str());
    HyperTokenError::CrdtError(text)
}

/// The bytes that were given, if any were.
pub open spec fn given(bytes: Option<Vec<u8>>) -> Option<Seq<u8>> {
    match bytes {
        Some(b) => Some(b@),
        None => None,
    }
}

/// `start` is the session that a step of the exchange starts from: the
/// one that the bytes given decode to, or a fresh one where none are given.
pub open spec fn starts(bytes: Option<Seq<u8>>, start: automerge::sync::State) -> bool {
    match bytes {
        Some(b) => session_of(b) == Some(start),
        None => is_fresh(start),
    }
}

/// The record holds this message, if any, and this session, each in the
/// transport encoding.
pub open spec fn frames(out: SyncOutput, message: Option<Seq<u8>>, session: Seq<u8>) -> bool {
    &&& out.hasMessage == (message is Some)
    &&& out.syncState@ == encode_spec(session)
    &&& match message {
        Some(m) => out.message is Some && out.message->0@ == encode_spec(m),
        None => out.message is None,
    }
}

impl Chronicle {
    /// The hashes of the changes that the document has applied: its history.
    pub closed spec fn changes(&self) -> Set<Seq<u8>> {
        doc_changes(self.doc)
    }

    /// The hashes of the heads of the history.
    pub open spec fn heads(&self) -> Set<Seq<u8>> {
        heads_of(self.changes())
    }

    /// Whether the document holds no change back for want of another that
    /// it depends on.
    pub closed spec fn settled(&self) -> bool {
        doc_pending(self.doc) == Set::<Seq<u8>>::empty()
    }

    /// The objects that the document shows: what the engine resolves from its history.
    pub open spec fn objects(&self) -> Objects {
        resolved(self.changes())
    }

    /// The state that the chronicle shows.
    pub open spec fn state(&self) -> crate::types::StateView {
        state_read(self.objects())
    }

    /// The chronicle after the engine has merged another document into
    /// it; `None` where the engine refuses to merge.
    pub closed spec fn merging(&self, other: automerge::Automerge) -> Option<Chronicle> {
        match merged(self.doc, other) {
            Some(doc) => Some(Chronicle { doc }),
            None => None,
        }
    }

    /// What a merge of a snapshot comes to, from the chronicle `self`
    /// before it to the chronicle `after`.
    ///
    /// Where the engine rejects the snapshot the merge fails. Else the
    /// snapshot is loaded, and the merge succeeds exactly where the engine
    /// merges the loaded document into this one; the chronicle is then
    /// what the engine made of the two. That holds the changes of both,
    /// and exactly those where this one held no change back. A snapshot
    /// whose changes are all here already is always merged and changes
    /// nothing. A merge that fails leaves the chronicle as it is.
    pub open spec fn merge_outcome(&self, after: Chronicle, r: Result<(), HyperTokenError>, snapshot: Seq<u8>) -> bool {
        &&& match decoded(snapshot) {
            Some(changes) => {
                &&& exists|other: automerge::Automerge| #[trigger]
                    loaded_from(other, snapshot) && match self.merging(other) {
                        Some(c) => r is Ok && after == c,
                        None => r is Err,
                    }
                &&& r is Ok ==> self.changes().union(changes).subset_of(after.changes())
                &&& r is Ok && self.settled() ==> after.settled() && after.changes() == self.changes().union(changes)
                &&& changes.subset_of(self.changes()) ==> r is Ok && after.changes() == self.changes()
                    && after.settled() == self.settled()
            },
            None => r is Err,
        }
        &&& r is Err ==> r->Err_0 is CrdtError && after == *self
    }

    /// The bytes of the message that the engine generates for the peer of
    /// a session, or `None` where it has nothing to send.
    pub closed spec fn message_for(&self, session: automerge::sync::State) -> Option<Seq<u8>> {
        match generated(self.doc, session) {
            Some(m) => Some(message_bytes(m)),
            None => None,
        }
    }

    /// The bytes of the session after the engine has generated for its peer.
    pub closed spec fn session_for(&self, session: automerge::sync::State) -> Seq<u8> {
        session_bytes(session_generated(self.doc, session))
    }

    /// The chronicle after the engine has received a message from the
    /// peer of a session; `None` where the engine refuses the message.
    pub closed spec fn taking(&self, session: automerge::sync::State, message: automerge::sync::Message) -> Option<
        Chronicle,
    > {
        match received(self.doc, session, message) {
            Some(doc) => Some(Chronicle { doc }),
            None => None,
        }
    }

    /// The session after the engine has received a message from its peer.
    pub closed spec fn session_taken(
        &self,
        session: automerge::sync::State,
        message: automerge::sync::Message,
    ) -> automerge::sync::State {
        session_received(self.doc, session, message)
    }

    /// A chronicle with an empty document.
    pub fn new() -> (c: Chronicle)
        ensures
            c.changes() == Set::<Seq<u8>>::empty(),
            c.heads() == Set::<Seq<u8>>::empty(),
            c.settled(),
            is_blank(c.objects()),
    {
        Chronicle { doc: doc_new() }
    }

    /// Writes the whole state in one transaction. See `state_written` for
    /// what the document holds afterwards. No change is lost; where the
    /// write adds a change, that change is the only head afterwards.
    pub fn set_state(&mut self, state: &HyperTokenState) -> (r: Result<(), HyperTokenError>)
        ensures
            r is Ok,
            state_written(old(self).objects(), final(self).objects(), state@),
            old(self).changes().subset_of(final(self).changes()),
            final(self).settled() == old(self).settled(),
            final(self).changes() == old(self).changes() || (final(self).heads().finite() && final(self).heads().len()
                == 1),
    {
        self.write_state_to_doc(state)
    }

    /// The state that the document shows. Reading never fails.
    pub fn get_state(&self) -> (r: Result<HyperTokenState, HyperTokenError>)
        ensures
            r is Ok,
            r->Ok_0@ == self.state(),
    {
        self.read_state_from_doc()
    }

    /// Writes the whole state, as `set_state` does. The label is taken and
    /// not kept.
    pub fn change(&mut self, _message: &str, new_state: &HyperTokenState) -> (r: Result<(), HyperTokenError>)
        ensures
            r is Ok,
            state_written(old(self).objects(), final(self).objects(), new_state@),
            old(self).changes().subset_of(final(self).changes()),
            final(self).settled() == old(self).settled(),
            final(self).changes() == old(self).changes() || (final(self).heads().finite() && final(self).heads().len()
                == 1),
    {
        self.write_state_to_doc(new_state)
    }

    /// A snapshot of the whole history.
    pub fn save(&self) -> (r: Result<Vec<u8>, HyperTokenError>)
        ensures
            r is Ok,
            decoded(r->Ok_0@) == Some(self.changes()),
            decoded_settled(r->Ok_0@) == self.settled(),
    {
        Ok(doc_save(&self.doc))
    }

    /// Replaces the document by the one in the snapshot. Where the engine
    /// rejects the snapshot the chronicle stays as it is.
    pub fn load(&mut self, data: &[u8]) -> (r: Result<(), HyperTokenError>)
        ensures
            match decoded(data@) {
                Some(changes) => r is Ok && final(self).changes() == changes && final(self).settled()
                    == decoded_settled(data@),
                None => r is Err && r->Err_0 is CrdtError && *final(self) == *old(self),
            },
    {
        match doc_load(data) {
            Ok(doc) => {
                self.doc = doc;
                Ok(())
            },
            Err(e) => Err(crdt_error("Failed to load document: ", error_text(&e))),
        }
    }

    /// A snapshot in the transport encoding.
    pub fn save_to_base64(&self) -> (r: Result<String, HyperTokenError>)
        ensures
            r is Ok,
            exists|bytes: Seq<u8>|
                r->Ok_0@ == encode_spec(bytes) && decoded(bytes) == Some(self.changes()) && decoded_settled(bytes)
                    == self.settled(),
    {
        let data = doc_save(&self.doc);
        Ok(base64_encode(data.as_slice()))
    }

    /// Replaces the document by the one in the encoded snapshot. Where the
    /// text is no encoding, or the engine rejects the snapshot, the
    /// chronicle stays as it is.
    pub fn load_from_base64(&mut self, base64: &str) -> (r: Result<(), HyperTokenError>)
        ensures
            match decode_spec(base64@) {
                Some(data) => match decoded(data) {
                    Some(changes) => r is Ok && final(self).changes() == changes && final(self).settled()
                        == decoded_settled(data),
                    None => r is Err && r->Err_0 is CrdtError && *final(self) == *old(self),
                },
                None => r is Err && r->Err_0 is SerializationError && *final(self) == *old(self),
            },
    {
        match base64_decode(base64) {
            Ok(data) => self.load(data.as_slice()),
            Err(e) => {
                let mut text = "Invalid base64: ".to_owned();
                text.append(e.as_str());
                Err(HyperTokenError::SerializationError(text))
            },
        }
    }

    /// Adds the history in the snapshot to the history of this document.
    /// See `merge_outcome`.
    pub fn merge(&mut self, other_data: &[u8]) -> (r: Result<(), HyperTokenError>)
        ensures
            old(self).merge_outcome(*final(self), r, other_data@),
    {
        match doc_load(other_data) {
            Ok(other) => {
                let mut other_doc = other;
                let ghost loaded = other_doc;
                // the snapshot is merged into a copy, which takes the
                // document's place only if the merge went through
                let mut trial = self.doc.clone();
                match doc_merge(&mut trial, &mut other_doc) {
                    Ok(_) => {
                        self.doc = trial;
                        proof {
                            assert(loaded_from(loaded, other_data@) && old(self).merging(loaded) == Some(*self));
                        }
                        Ok(())
                    },
                    Err(_e) => {
                        proof {
                            assert(loaded_from(loaded, other_data@) && old(self).merging(loaded) is None);
                        }
                        Err(crdt_error("Failed to merge documents", String::new()))
                    },
                }
            },
            Err(e) => Err(crdt_error("Failed to load other document: ", error_text(&e))),
        }
    }

    /// The number of heads of the history. More than one means that
    /// branches were merged and not yet written over.
    pub fn change_count(&self) -> (r: usize)
        ensures
            r == self.heads().len(),
            self.heads().finite(),
    {
        let heads = doc_head_hashes(&self.doc);
        proof {
            heads.deep_view().unique_seq_to_set();
        }
        heads.len()
    }

    /// The next message for a peer, given the session kept for it, or none
    /// where there is nothing to send now; and the session to keep.
    ///
    /// Fails exactly where a session is given that the engine cannot
    /// decode. Else the record holds what the engine generated from the
    /// document and the session that the step starts from: its message,
    /// if it has one, and the session after it.
    pub fn generate_sync_message(&self, sync_state_bytes: Option<Vec<u8>>) -> (r: Result<SyncOutput, HyperTokenError>)
        ensures
            match sync_state_bytes {
                Some(bytes) if session_of(bytes@) is None => r is Err && r->Err_0 is CrdtError,
                _ => r is Ok && r->Ok_0.well_formed() && exists|start: automerge::sync::State| #[trigger]
                    starts(given(sync_state_bytes), start) && frames(
                        r->Ok_0,
                        self.message_for(start),
                        self.session_for(start),
                    ),
            },
    {
        let mut sync_state = match &sync_state_bytes {
            Some(bytes) => match session_decode(bytes.as_slice()) {
                Ok(s) => s,
                Err(e) => {
                    return Err(crdt_error("Failed to decode sync state: ", session_error_text(&e)));
                },
            },
            None => session_new(),
        };
        let ghost start = sync_state;

        let message = sync_generate(&self.doc, &mut sync_state);
        let message_bytes = match message {
            Some(m) => Some(message_encode(m)),
            None => None,
        };
        let new_sync_state_bytes = session_encode(&sync_state);
        let out = sync_output(message_bytes, new_sync_state_bytes);
        proof {
            assert(starts(given(sync_state_bytes), start) && frames(
                out,
                self.message_for(start),
                self.session_for(start),
            ));
        }
        Ok(out)
    }

    /// Takes in a peer's message and answers it: the changes it brings
    /// enter the document, and the next message for that peer is generated
    /// at once.
    ///
    /// Where the text is no encoding, or the engine cannot decode the
    /// message or the session, or refuses the message, it fails and the
    /// chronicle stays as it is. Else it succeeds: the chronicle is what
    /// the engine made of it with the message, and the record holds what
    /// the engine then generated from it with the session after the
    /// message. In every case no change is lost.
    pub fn receive_sync_message(&mut self, message_base64: &str, sync_state_bytes: Option<Vec<u8>>) -> (r: Result<SyncOutput, HyperTokenError>)
        ensures
            old(self).changes().subset_of(final(self).changes()),
            r is Ok ==> r->Ok_0.well_formed(),
            r is Err ==> *final(self) == *old(self),
            match decode_spec(message_base64@) {
                None => r is Err && r->Err_0 is SerializationError,
                Some(bytes) => match message_of(bytes) {
                    None => r is Err && r->Err_0 is CrdtError,
                    Some(message) => match sync_state_bytes {
                        Some(s) if session_of(s@) is None => r is Err && r->Err_0 is CrdtError,
                        _ => exists|start: automerge::sync::State| #[trigger]
                            starts(given(sync_state_bytes), start) && match old(self).taking(start, message) {
                                Some(c) => r is Ok && *final(self) == c && frames(
                                    r->Ok_0,
                                    c.message_for(old(self).session_taken(start, message)),
                                    c.session_for(old(self).session_taken(start, message)),
                                ),
                                None => r is Err && r->Err_0 is CrdtError,
                            },
                    },
                },
            },
    {
        let message_bytes = match base64_decode(message_base64) {
            Ok(b) => b,
            Err(e) => {
                let mut text = "Invalid base64 message: ".to_owned();
                text.append(e.as_str());
                return Err(HyperTokenError::SerializationError(text));
            },
        };

        let message = match message_decode(message_bytes.as_slice()) {
            Ok(m) => m,
            Err(e) => {
                return Err(crdt_error("Failed to decode sync message: ", message_error_text(&e)));
            },
        };

        let mut sync_state = match &sync_state_bytes {
            Some(bytes) => match session_decode(bytes.as_slice()) {
                Ok(s) => s,
                Err(e) => {
                    return Err(crdt_error("Failed to decode sync state: ", session_error_text(&e)));
                },
            },
            None => session_new(),
        };
        let ghost start = sync_state;

        // the message is applied to a copy, which takes the document's
        // place only if all of it could be applied
        let mut trial = self.doc.clone();
        match sync_receive(&mut trial, &mut sync_state, message) {
            Ok(_) => {
                self.doc = trial;
            },
            Err(e) => {
                proof {
                    assert(starts(given(sync_state_bytes), start) && old(self).taking(start, message) is None);
                }
                return Err(crdt_error("Failed to receive sync message: ", error_text(&e)));
            },
        }
        let ghost taken = sync_state;

        let response = sync_generate(&self.doc, &mut sync_state);
        let response_bytes = match response {
            Some(m) => Some(message_encode(m)),
            None => None,
        };
        let new_sync_state_bytes = session_encode(&sync_state);
        let out = sync_output(response_bytes, new_sync_state_bytes);
        proof {
            assert(starts(given(sync_state_bytes), start) && old(self).taking(start, message) == Some(*self)
                && taken == old(self).session_taken(start, message) && frames(
                out,
                self.message_for(taken),
                self.session_for(taken),
            ));
        }
        Ok(out)
    }

    /// Merging under another name, for peers that exchange whole documents.
    pub fn sync_full(&mut self, other_doc_bytes: &[u8]) -> (r: Result<(), HyperTokenError>)
        ensures
            old(self).merge_outcome(*final(self), r, other_doc_bytes@),
    {
        self.merge(other_doc_bytes)
    }

    /// Writes the state in one transaction that is committed whole or not at all.
    fn write_state_to_doc(&mut self, state: &HyperTokenState) -> (r: Result<(), HyperTokenError>)
        ensures
            r is Ok,
            state_written(old(self).objects(), final(self).objects(), state@),
            old(self).changes().subset_of(final(self).changes()),
            final(self).settled() == old(self).settled(),
            final(self).changes() == old(self).changes() || (final(self).heads().finite() && final(self).heads().len()
                == 1),
    {
        match transact_state(&mut self.doc, state) {
            Ok(_) => Ok(()),
            Err(e) => Err(crdt_error("Transaction failed: ", error_text(&e))),
        }
    }

    /// Reads the state from the document.
    fn read_state_from_doc(&self) -> (r: Result<HyperTokenState, HyperTokenError>)
        ensures
            r is Ok,
            r->Ok_0@ == self.state(),
    {
        read_state(&self.doc)
    }

    /// The document itself.
    pub fn doc(&self) -> (r: &automerge::Automerge)
        ensures
            doc_changes(*r) == self.changes(),
            (doc_pending(*r) == Set::<Seq<u8>>::empty()) == self.settled(),
    {
        &self.doc
    }

    /// The document itself, to change in place. What the caller leaves in
    /// it is what the chronicle holds afterwards.
    pub fn doc_mut(&mut self) -> (r: &mut automerge::Automerge)
        ensures
            doc_changes(*r) == old(self).changes(),
            final(self).changes() == doc_changes(*final(r)),
            final(self).settled() == (doc_pending(*final(r)) == Set::<Seq<u8>>::empty()),
    {
        &mut self.doc
    }
}

impl Default for Chronicle {
    fn default() -> (c: Chronicle)
        ensures
            c.changes() == Set::<Seq<u8>>::empty(),
            c.heads() == Set::<Seq<u8>>::empty(),
            c.settled(),
            is_blank(c.objects()),
    {
        Chronicle::new()
    }
}

} // verus!
