use vstd::prelude::*;

use crate::interface::InterfaceItem;
use crate::log::LogItem;

verus! {

#[derive(Debug)]
pub enum MessagingError {
    UnableToCreateLog,
    UnableToCreateInterface,
}

/// A message between the parts of the controller.
#[derive(Debug, Clone)]
pub enum Message {
    Log(LogItem),
    Interface(InterfaceItem),
}

} // verus!
