pub mod codec;
pub mod hub;
pub mod lifecycle;
pub mod registry;
pub mod room_index;
pub mod rooms;
pub mod sink;
pub mod store;

pub use codec::Envelope;
pub use hub::Delivery;
pub use hub::Hub;
pub use registry::Client;
pub use registry::ClientId;
pub use registry::Registry;
pub use room_index::RoomIndex;
pub use store::MessageStore;
pub use store::StoreError;
