//! The serial protocol of MMDVM modems.

pub mod batch;
pub mod command;
pub mod nack;
pub mod response;
pub mod sender;

pub use crate::mmdvm::batch::Batch;
pub use crate::mmdvm::command::Command;
pub use crate::mmdvm::nack::MmdvmNackReason;
pub use crate::mmdvm::response::{Reception, ResponseCode, ResponseFailure, ResponseReader};
pub use crate::mmdvm::sender::Sender;
