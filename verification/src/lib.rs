//! The PROXY protocol: headers that tell, at the start of a connection, which connection
//! it stands for.
pub mod accept;
pub mod addr;
pub mod buffer;
pub mod codec;
pub mod connect;
pub mod error;
pub mod header;
pub mod laws;
pub mod proxy;
pub mod stream;
pub mod text;

pub use accept::{Accepting, Acceptor, Action};
pub use connect::Connector;
pub use stream::{finish_read, InnerRead, ProxyStream, ReadPlan, WithProxyInfo};
