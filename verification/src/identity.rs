//! This device's identity for sync: a stable id and a display name.
use vstd::prelude::*;
use crate::text::{trim, trim_text};

verus! {

/// Who this device is to its peers.
pub struct DeviceIdentity {
    pub device_id: String,
    pub device_name: String,
}

/// The name used when the system gives none.
pub open spec fn fallback_device_name() -> Seq<char> {
    seq!['C', 'u', 'e', ' ', 'D', 'e', 'v', 'i', 'c', 'e']
}

/// The device name from what the system gives, in order of preference:
/// the computer name, the host name file trimmed when it is not empty, the
/// host name variable, else "Cue Device".
pub open spec fn device_name_spec(computer_name: Option<Seq<char>>, hostname_file: Option<Seq<char>>, hostname_var: Option<Seq<char>>) -> Seq<char> {
    match computer_name {
        Some(n) => n,
        None => {
            let from_file = match hostname_file {
                Some(f) => trim(f),
                None => Seq::empty(),
            };
            if from_file.len() > 0 {
                from_file
            } else {
                match hostname_var {
                    Some(v) => v,
                    None => fallback_device_name(),
                }
            }
        },
    }
}

/// This device's name (see `device_name_spec`); the computer name is only
/// given on systems that have one.
pub fn device_name(computer_name: Option<String>, hostname_file: Option<&str>, hostname_var: Option<String>) -> (r: String)
    ensures
        r@ == device_name_spec(
            match computer_name { Some(n) => Some(n@), None => None },
            match hostname_file { Some(f) => Some(f@), None => None },
            match hostname_var { Some(v) => Some(v@), None => None },
        ),
{
    match computer_name {
        Some(n) => n,
        None => {
            match hostname_file {
                Some(f) => {
                    let t = trim_text(f);
                    if t.as_str().unicode_len() > 0 {
                        return t;
                    }
                },
                None => {},
            }
            match hostname_var {
                Some(v) => v,
                None => {
                    let d = "Cue Device";
                    proof { reveal_strlit("Cue Device"); }
                    d.to_string()
                },
            }
        },
    }
}

impl DeviceIdentity {
    /// The identity read from disk when there is one, else a new one with
    /// `new_id` and `name`.
    pub fn load_or_create(stored: Option<DeviceIdentity>, new_id: String, name: String) -> (r: DeviceIdentity)
        ensures
            match stored {
                Some(s) => r == s,
                None => r.device_id@ == new_id@ && r.device_name@ == name@,
            },
    {
        match stored {
            Some(s) => s,
            None => DeviceIdentity { device_id: new_id, device_name: name },
        }
    }
}

} // verus!
