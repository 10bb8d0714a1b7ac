//! The client: its credentials and its pool of shards.

use crate::gatewaymessage::ReceivedGatewayMessage;
use crate::manager::{set_up, ClientConnectError, WebsocketManager};
use crate::rest::{APIRouter, RestRequest};
use crate::shard::WebSocketShard;
use vstd::prelude::*;
use vstd::string::StringExecFns;

verus! {

/// What a client knows of itself.
pub struct ClientData {
    pub token: Option<String>,
}

/// A client of the gateway.
pub struct Client {
    pub shards: WebsocketManager,
    pub data: ClientData,
}

impl Client {
    /// A client without a token, whose pool knows no gateway, has no shards
    /// and has received nothing.
    pub fn new() -> (r: Client)
        ensures
            r.data.token is None,
            r.shards.well_formed(),
            r.shards.gateway() == Seq::<char>::empty(),
            r.shards.shards() == Map::<u64, WebSocketShard>::empty(),
            r.shards.inbox() == Seq::<ReceivedGatewayMessage>::empty(),
    {
        Client { shards: WebsocketManager::new(), data: ClientData { token: None } }
    }

    /// Takes the token and gives the request that asks the gateway where to
    /// connect and with how many shards.
    pub fn login(&mut self, token: &str) -> (r: RestRequest)
        ensures
            final(self).data.token matches Some(t) && t@ == token@,
            final(self).shards == old(self).shards,
            r@ == APIRouter::start(Some(token@)).step("gateway"@).step("bot"@).request(
                crate::rest::HTTPMethod::GET,
            ),
    {
        self.data.token = Some(String::from_str(token));
        APIRouter::new(&self.data).index("gateway").index("bot").get()
    }

    /// Sets the pool of shards up from the gateway's answer to the request of `login`.
    pub fn connect(&mut self, url: Option<&str>, shards: Option<i64>) -> (r: Result<
        u64,
        ClientConnectError,
    >)
        requires
            old(self).shards.well_formed(),
        ensures
            final(self).data == old(self).data,
            set_up(
                old(self).shards,
                match url {
                    Some(u) => Some(u@),
                    None => None,
                },
                shards,
                final(self).shards,
                r,
            ),
    {
        self.shards.connect(url, shards)
    }
}

} // verus!
