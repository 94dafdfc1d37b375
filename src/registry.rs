//! The stream registry: stream id to shared buffer, with an atomic
//! insert-if-absent so that each stream gets exactly one drain scheduler.
use std::sync::Arc;
use vstd::prelude::*;
use crate::buffer::{Packet, StreamBuffer};
use crate::drain::TickAction;
use crate::header::{parse_spec, HeaderError, PACKET_SIZE};

verus! {

#[verifier::external_type_specification]
#[verifier::external_body]
#[verifier::reject_recursive_types(K)]
#[verifier::reject_recursive_types(V)]
#[verifier::reject_recursive_types(S)]
pub struct ExDashMap<K, V, S>(dashmap::DashMap<K, V, S>);

#[verifier::external_type_specification]
#[verifier::external_body]
#[verifier::reject_recursive_types(T)]
pub struct ExTokioMutex<T: ?Sized>(tokio::sync::Mutex<T>);

/// A stream's buffer behind the lock that ingress and its drain task share.
pub type SharedBuffer = Arc<tokio::sync::Mutex<StreamBuffer>>;

/// Relies on `tokio::sync::Mutex::new`: an unlocked lock around the buffer.
#[verifier::external_body]
fn share(buffer: StreamBuffer) -> SharedBuffer {
    Arc::new(tokio::sync::Mutex::new(buffer))
}

/// The concurrent map from stream id to handle.
pub type StreamMap = dashmap::DashMap<u32, SharedBuffer>;

/// What a stream map holds: each registered stream id with its handle.
pub uninterp spec fn streams_of(m: StreamMap) -> Map<u32, SharedBuffer>;

/// Relies on `DashMap::new`: an empty map.
#[verifier::external_body]
fn empty_map() -> (r: StreamMap)
    ensures
        streams_of(r).dom() == Set::<u32>::empty(),
{
    dashmap::DashMap::new()
}

/// Relies on `DashMap::get`: a clone of the handle stored for `stream_id`.
#[verifier::external_body]
fn lookup(m: &StreamMap, stream_id: u32) -> (r: Option<SharedBuffer>)
    ensures
        r == if streams_of(*m).contains_key(stream_id) {
            Some(streams_of(*m)[stream_id])
        } else {
            None::<SharedBuffer>
        },
{
    m.get(&stream_id).map(|entry| entry.value().clone())
}

/// Relies on `DashMap::entry`, which holds the shard's write lock while it
/// decides: an existing handle is returned as it is, otherwise `fresh` is
/// stored and returned, flagged as created.
#[verifier::external_body]
fn insert_if_absent(
    m: &mut StreamMap,
    stream_id: u32,
    fresh: SharedBuffer,
) -> (r: (SharedBuffer, bool))
    ensures
        r.1 == !streams_of(*old(m)).contains_key(stream_id),
        r.1 ==> r.0 == fresh && streams_of(*final(m)) == streams_of(*old(m)).insert(stream_id, fresh),
        !r.1 ==> r.0 == streams_of(*old(m))[stream_id] && streams_of(*final(m)) == streams_of(*old(m)),
{
    match m.entry(stream_id) {
        dashmap::mapref::entry::Entry::Occupied(e) => (e.get().clone(), false),
        dashmap::mapref::entry::Entry::Vacant(e) => {
            e.insert(fresh.clone());
            (fresh, true)
        },
    }
}

/// Relies on `DashMap::remove`: the entry of `stream_id` goes, and the
/// result says whether there was one.
#[verifier::external_body]
fn unregister(m: &mut StreamMap, stream_id: u32) -> (r: bool)
    ensures
        r == streams_of(*old(m)).contains_key(stream_id),
        streams_of(*final(m)) == streams_of(*old(m)).remove(stream_id),
{
    m.remove(&stream_id).is_some()
}

/// Registering or retiring one stream leaves every other stream's entry as
/// it was; a retired stream is absent, so its next packet registers it anew.
pub proof fn lemma_stream_entries_isolated(
    m: Map<u32, SharedBuffer>,
    x: u32,
    y: u32,
    handle: SharedBuffer,
)
    requires
        x != y,
    ensures
        m.insert(x, handle).contains_key(y) == m.contains_key(y),
        m.contains_key(y) ==> m.insert(x, handle)[y] == m[y],
        m.remove(x).contains_key(y) == m.contains_key(y),
        m.contains_key(y) ==> m.remove(x)[y] == m[y],
        !m.remove(x).contains_key(x),
{
}

/// A datagram accepted for a stream.
pub struct Admission {
    pub stream_id: u32,
    pub packet: Packet,
    /// The stream's buffer, into which the packet goes.
    pub buffer: SharedBuffer,
    /// This call registered the stream: its caller starts the drain task.
    pub created: bool,
}

/// All streams currently known, by stream id. Calls that change it take
/// `&mut self`: a registry shared between tasks sits behind one lock, so
/// that deciding whether a stream is new and registering it is one step.
pub struct StreamRegistry {
    streams: StreamMap,
}

impl StreamRegistry {
    /// The registered streams and their handles.
    pub closed spec fn streams(&self) -> Map<u32, SharedBuffer> {
        streams_of(self.streams)
    }

    /// A registry with no streams.
    pub fn new() -> (r: StreamRegistry)
        ensures
            r.streams().dom() == Set::<u32>::empty(),
    {
        StreamRegistry { streams: empty_map() }
    }

    /// The handle of `stream_id`, registering a handle to an empty buffer for
    /// it if it is new. `created` says whether it was new; otherwise the
    /// stored handle comes back and the registry is unchanged.
    pub fn get_or_create(&mut self, stream_id: u32) -> (r: (SharedBuffer, bool))
        ensures
            r.1 == !old(self).streams().contains_key(stream_id),
            !r.1 ==> r.0 == old(self).streams()[stream_id] && final(self).streams() == old(
                self,
            ).streams(),
            r.1 ==> final(self).streams() == old(self).streams().insert(stream_id, r.0),
    {
        match lookup(&self.streams, stream_id) {
            Some(handle) => (handle, false),
            None => {
                let fresh = share(StreamBuffer::new());
                insert_if_absent(&mut self.streams, stream_id, fresh)
            },
        }
    }

    /// Reads a datagram that arrived at `arrival_ms` and finds its stream's
    /// buffer, registering the stream if it is new. A datagram whose header
    /// is refused is dropped with its error, and the registry is unchanged.
    pub fn receive(&mut self, datagram: &[u8], arrival_ms: u64) -> (r: Result<Admission, HeaderError>)
        ensures
            match parse_spec(datagram@) {
                Ok(h) => r matches Ok(a) && {
                    &&& a.stream_id == h.stream_id
                    &&& a.packet.sequence == h.sequence
                    &&& a.packet.arrival_ms == arrival_ms
                    &&& a.packet.data@ == datagram@.take(PACKET_SIZE as int)
                    &&& a.created == !old(self).streams().contains_key(h.stream_id)
                    &&& !a.created ==> a.buffer == old(self).streams()[h.stream_id]
                        && final(self).streams() == old(self).streams()
                    &&& a.created ==> final(self).streams() == old(self).streams().insert(
                        h.stream_id,
                        a.buffer,
                    )
                },
                Err(e) => r matches Err(x) && x == e && final(self).streams() == old(
                    self,
                ).streams(),
            },
    {
        match Packet::from_datagram(datagram, arrival_ms) {
            Err(e) => Err(e),
            Ok((stream_id, packet)) => {
                let (buffer, created) = self.get_or_create(stream_id);
                Ok(Admission { stream_id, packet, buffer, created })
            },
        }
    }

    /// Acts on a drain tick's outcome for `stream_id`: the `Retire` action
    /// removes the stream's entry, and the result says whether there was one;
    /// every other action leaves the registry alone and removes nothing.
    pub fn settle(&mut self, stream_id: u32, action: TickAction) -> (removed: bool)
        ensures
            action == TickAction::Retire ==> removed == old(self).streams().contains_key(stream_id)
                && final(self).streams() == old(self).streams().remove(stream_id),
            action != TickAction::Retire ==> !removed && final(self).streams() == old(
                self,
            ).streams(),
    {
        if action == TickAction::Retire {
            unregister(&mut self.streams, stream_id)
        } else {
            false
        }
    }
}

} // verus!
