//! The shared per-process session store: an identifier derived from the
//! store's own memory address, and the list of device names, constructed
//! once at startup and only read afterward.

use vstd::prelude::*;

verus! {

/// The fixed text that opens every store identifier; the formatted address
/// follows it.
pub open spec fn address_id_prefix() -> Seq<char> {
    "Instance address as id: "@
}

/// The device sessions shared by every request.
pub struct DeviceResponseSessions {
    unique_id: Option<String>,
    device_list: Vec<String>,
}

/// Relies on alloc's `format!` with the pointer formatter: the result is the
/// fixed prefix followed by the store's rendered memory address. The address
/// differs from run to run, so nothing beyond the prefix is stated.
#[verifier::external_body]
fn format_instance_id(sessions: &DeviceResponseSessions) -> (r: String)
    ensures
        r@.len() >= address_id_prefix().len(),
        r@.subrange(0, address_id_prefix().len() as int) == address_id_prefix(),
{
    format!("Instance address as id: {:p}", sessions)
}

impl DeviceResponseSessions {
    /// The store is well formed once its identifier is set; `new`
    /// establishes this and nothing ever unsets it.
    pub closed spec fn wf(&self) -> bool {
        self.unique_id is Some
    }

    /// The identifier the store carries.
    pub closed spec fn id(&self) -> Seq<char> {
        self.unique_id.unwrap()@
    }

    /// The device names the store carries.
    pub closed spec fn devices(&self) -> Seq<Seq<char>> {
        self.device_list@.map_values(|s: String| s@)
    }

    /// Creates the store with the three demo devices, then records its own
    /// address as its identifier.
    pub fn new() -> (r: Self)
        ensures
            r.wf(),
            r.id().len() >= address_id_prefix().len(),
            r.id().subrange(0, address_id_prefix().len() as int) == address_id_prefix(),
            r.devices() == seq!["111"@, "222"@, "333"@],
    {
        let mut device_list: Vec<String> = Vec::new();
        device_list.push(String::from_str("111"));
        device_list.push(String::from_str("222"));
        device_list.push(String::from_str("333"));
        let mut instance = DeviceResponseSessions { unique_id: None, device_list };
        let id = format_instance_id(&instance);
        instance.unique_id = Some(id);
        proof {
            assert(instance.devices() =~= seq!["111"@, "222"@, "333"@]);
        }
        instance
    }

    /// Hands out the identifier.
    pub fn print_unique_id(&self) -> (r: &str)
        requires
            self.wf(),
        ensures
            r@ == self.id(),
    {
        match &self.unique_id {
            Some(s) => s.as_str(),
            None => "",
        }
    }
}

} // verus!
