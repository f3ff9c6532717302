//! Message Router module for routing messages between agents and channels
pub mod channel;
pub mod queue;
pub mod router;

pub use channel::{Channel, ChannelHandler, ChannelType};
pub use queue::{ChatMessage, MessagePriority, MessageQueue};
pub use router::MessageRouter;
