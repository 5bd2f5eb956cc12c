//! The header at the start of an outgoing connection.
use crate::addr::SocketAddr;
use crate::buffer::{self, contents};
use crate::codec::{v1_text, ProxyInfo, ProxyProtocolCodecV1};
use crate::error::{is_proxy_error, Error};
use crate::laws::law_v1_length;
use bytes::BytesMut;
use vstd::prelude::*;

verus! {

/// How outgoing connections start.
pub struct Connector {
    use_v2: bool,
}

impl Default for Connector {
    fn default() -> (connector: Self)
        ensures
            !connector.uses_v2(),
    {
        Connector { use_v2: false }
    }
}

impl Connector {
    /// Whether connections start with a version 2 header.
    pub closed spec fn uses_v2(self) -> bool {
        self.use_v2
    }

    /// A connector for version 1 headers.
    pub fn new() -> (connector: Self)
        ensures
            !connector.uses_v2(),
    {
        Connector::default()
    }

    /// Sets whether connections start with a version 2 header.
    pub fn use_v2(self, use_v2: bool) -> (connector: Self)
        ensures
            connector.uses_v2() == use_v2,
    {
        Connector { use_v2 }
    }

    /// Whether there is an answer for a connection between the given addresses: there is
    /// none where a version 2 header would be sent.
    pub fn supports(
        &self,
        original_source: Option<SocketAddr>,
        original_destination: Option<SocketAddr>,
    ) -> (supported: bool)
        ensures
            supported == (self.uses_v2() ==> ProxyInfo::of_addresses(
                original_source,
                original_destination,
            ) is None),
    {
        !self.use_v2 || ProxyInfo::try_from((original_source, original_destination)).is_err()
    }

    /// What is sent first on a connection, for a connection between the given addresses.
    /// Version 2 headers are not supported.
    pub fn header_for(
        &self,
        original_source: Option<SocketAddr>,
        original_destination: Option<SocketAddr>,
    ) -> (data: Result<BytesMut, Error>)
        requires
            self.uses_v2() ==> ProxyInfo::of_addresses(original_source, original_destination)
                is None,
        ensures
            match ProxyInfo::of_addresses(original_source, original_destination) {
                Some(info) => data matches Ok(data) && contents(data) == v1_text(info),
                None => data matches Err(e) && is_proxy_error(
                    e,
                    "Inconsistent source and destination addresses"@,
                ),
            },
    {
        let info = match ProxyInfo::try_from((original_source, original_destination)) {
            Ok(info) => info,
            Err(e) => {
                return Err(e);
            },
        };
        let mut data = buffer::empty();
        let mut codec = ProxyProtocolCodecV1::new();
        proof {
            law_v1_length(info);
        }
        match codec.encode(info, &mut data) {
            Ok(()) => Ok(data),
            Err(e) => Err(e),
        }
    }
}

} // verus!
