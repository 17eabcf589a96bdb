//! The maps in which either end of the tunnel keeps what is connected.

use dashmap::DashMap;
use vstd::prelude::*;

use crate::protocol::{ConnectionId, ProtocolType, Tunnel, UpstreamClient};

verus! {

/// `dashmap::DashMap`, a map.
#[verifier::external_type_specification]
#[verifier::external_body]
#[verifier::reject_recursive_types(K)]
#[verifier::reject_recursive_types(V)]
#[verifier::reject_recursive_types(S)]
pub struct ExDashMap<K, V, S>(dashmap::DashMap<K, V, S>);

/// By what the sending half of a channel is found again.
pub type ChannelId = u64;

/// Who shares files: the connection of each and its protocols, under its subdomain.
pub type Clients = Map<Seq<char>, (ConnectionId, Seq<ProtocolType>)>;

/// The tunnels: who shares files and the browser's connection, under the number of a stream.
pub type Tunnels = Map<u32, ((ConnectionId, Seq<ProtocolType>), ConnectionId)>;

/// The ends of the tunnel that a map holds, each under its subdomain.
pub uninterp spec fn clients_in(map: DashMap<String, UpstreamClient>) -> Map<
    Seq<char>,
    (ConnectionId, Seq<ProtocolType>),
>;

/// The tunnels that a map holds, each under the number of its stream.
pub uninterp spec fn tunnels_in(map: DashMap<u32, Tunnel>) -> Map<
    u32,
    ((ConnectionId, Seq<ProtocolType>), ConnectionId),
>;

/// The channels that a map holds, each under the number of its stream.
pub uninterp spec fn streams_in(map: DashMap<u32, ChannelId>) -> Map<u32, ChannelId>;

/// `DashMap::new`, of ends of the tunnel: an empty map.
#[verifier::external_body]
pub(crate) fn no_clients() -> (map: DashMap<String, UpstreamClient>)
    ensures
        clients_in(map).is_empty(),
{
    DashMap::new()
}

/// `DashMap::contains_key`, of ends of the tunnel: whether one stands under the key.
#[verifier::external_body]
pub(crate) fn has_client(map: &DashMap<String, UpstreamClient>, subdomain: &str) -> (found: bool)
    ensures
        found == clients_in(*map).contains_key(subdomain@),
{
    map.contains_key(subdomain)
}

/// `DashMap::get`, of ends of the tunnel: a copy of the one that stands under the key.
#[verifier::external_body]
pub(crate) fn find_client(map: &DashMap<String, UpstreamClient>, subdomain: &str) -> (client:
    Option<UpstreamClient>)
    ensures
        match client {
            Some(client) => clients_in(*map).contains_key(subdomain@) && client@ == clients_in(
                *map,
            )[subdomain@],
            None => !clients_in(*map).contains_key(subdomain@),
        },
{
    map.get(subdomain).map(|entry| entry.value().clone())
}

/// `DashMap::insert`, of ends of the tunnel: the given one stands under the key, in place of what
/// stood there.
#[verifier::external_body]
pub(crate) fn add_client(
    map: &mut DashMap<String, UpstreamClient>,
    subdomain: String,
    client: UpstreamClient,
)
    ensures
        clients_in(*final(map)) == clients_in(*old(map)).insert(subdomain@, client@),
{
    map.insert(subdomain, client);
}

/// `DashMap::clone`, of ends of the tunnel: a map of its own that holds the same.
#[verifier::external_body]
pub(crate) fn copy_clients(map: &DashMap<String, UpstreamClient>) -> (copy: DashMap<
    String,
    UpstreamClient,
>)
    ensures
        clients_in(copy) == clients_in(*map),
{
    map.clone()
}

/// `DashMap::new`, of tunnels: an empty map.
#[verifier::external_body]
pub(crate) fn no_tunnels() -> (map: DashMap<u32, Tunnel>)
    ensures
        tunnels_in(map).is_empty(),
{
    DashMap::new()
}

/// `DashMap::insert`, of tunnels: the given one stands under the key, in place of what stood there.
#[verifier::external_body]
pub(crate) fn add_tunnel(map: &mut DashMap<u32, Tunnel>, stream_id: u32, tunnel: Tunnel)
    ensures
        tunnels_in(*final(map)) == tunnels_in(*old(map)).insert(stream_id, tunnel@),
{
    map.insert(stream_id, tunnel);
}

/// `DashMap::remove`, of tunnels: none stands under the key any more.
#[verifier::external_body]
pub(crate) fn remove_tunnel(map: &mut DashMap<u32, Tunnel>, stream_id: u32)
    ensures
        tunnels_in(*final(map)) == tunnels_in(*old(map)).remove(stream_id),
{
    map.remove(&stream_id);
}

/// `DashMap::clone`, of tunnels: a map of its own that holds the same.
#[verifier::external_body]
pub(crate) fn copy_tunnels(map: &DashMap<u32, Tunnel>) -> (copy: DashMap<u32, Tunnel>)
    ensures
        tunnels_in(copy) == tunnels_in(*map),
{
    map.clone()
}

/// `DashMap::new`, of channels: an empty map.
#[verifier::external_body]
pub(crate) fn no_streams() -> (map: DashMap<u32, ChannelId>)
    ensures
        streams_in(map).is_empty(),
{
    DashMap::new()
}

/// `DashMap::get`, of channels: the one that stands under the key.
#[verifier::external_body]
pub(crate) fn find_stream(map: &DashMap<u32, ChannelId>, stream_id: u32) -> (channel: Option<
    ChannelId,
>)
    ensures
        channel == streams_in(*map).get(stream_id),
{
    map.get(&stream_id).map(|entry| *entry.value())
}

/// `DashMap::insert`, of channels: the given one stands under the key; the one that stood there
/// before, where there was one, is handed back.
#[verifier::external_body]
pub(crate) fn add_stream(map: &mut DashMap<u32, ChannelId>, stream_id: u32, channel: ChannelId)
    -> (replaced: Option<ChannelId>)
    ensures
        streams_in(*final(map)) == streams_in(*old(map)).insert(stream_id, channel),
        replaced == streams_in(*old(map)).get(stream_id),
{
    map.insert(stream_id, channel)
}

/// `DashMap::remove`, of channels: the one that stood under the key, where there was one; none
/// stands there any more.
#[verifier::external_body]
pub(crate) fn remove_stream(map: &mut DashMap<u32, ChannelId>, stream_id: u32) -> (channel: Option<
    ChannelId,
>)
    ensures
        channel == streams_in(*old(map)).get(stream_id),
        streams_in(*final(map)) == streams_in(*old(map)).remove(stream_id),
{
    map.remove(&stream_id).map(|entry| entry.1)
}

} // verus!
