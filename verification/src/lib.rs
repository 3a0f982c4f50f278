pub mod bignum;
pub mod domain;
pub mod aggregate;
pub mod policy;
pub mod state;
pub mod view;

pub use bignum::BigNum;
pub use bignum::DecodeError;
pub use bignum::MathError;
pub use domain::BalanceEntry;
pub use domain::ChannelSpec;
pub use domain::MarketChannel;
pub use domain::MarketStatus;
pub use domain::MarketStatusType;
pub use domain::ValidatorDesc;
pub use policy::ChannelSort;
pub use state::Cmd;
pub use state::FetchError;
pub use state::Loadable;
pub use state::Model;
pub use state::Msg;
pub use view::ChannelRow;
pub use view::Dashboard;
pub use view::ViewTree;
