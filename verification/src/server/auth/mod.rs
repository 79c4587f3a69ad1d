//! Authentication contexts, scope checks and the decisions of the providers.
pub mod traits;
pub mod proxy;

pub use traits::{AuthContext, ScopeBasedAuthorizer};
pub use proxy::{NoOpAuthProvider, ProxyProviderConfig};
