use vstd::prelude::*;

verus! {

/// What passes between the controller and an interface.
#[derive(Debug, Clone)]
pub enum InterfaceItem {
    HelloOut(String),
    HelloIn(String),
}

} // verus!
