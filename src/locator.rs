//! Finding the token among the serial ports that the platform lists.
use vstd::prelude::*;

verus! {

/// Vendor id of the token's USB interface.
pub const TOKEN_VID: u16 = 0x0420;

/// Product id of the token's USB interface.
pub const TOKEN_PID: u16 = 0x2137;

/// Identity strings and ids of a USB serial device.
#[derive(Debug)]
pub struct UsbIdentity {
    pub vid: u16,
    pub pid: u16,
    pub manufacturer: Option<String>,
    pub product: Option<String>,
}

/// A serial port as the platform lists it; `usb` is absent for ports that
/// are not USB devices.
#[derive(Debug)]
pub struct PortDescriptor {
    pub port_name: String,
    pub usb: Option<UsbIdentity>,
}

/// An optional string that is present and equal to `expected`.
pub open spec fn text_matches(s: Option<String>, expected: Seq<char>) -> bool {
    s matches Some(v) && v@ == expected
}

/// The token's identity: its ids, manufacturer "ABW" and product
/// "STM32 NTRU Token".
pub open spec fn is_token(d: PortDescriptor) -> bool {
    d.usb matches Some(u) && u.vid == TOKEN_VID && u.pid == TOKEN_PID && text_matches(
        u.manufacturer,
        "ABW"@,
    ) && text_matches(u.product, "STM32 NTRU Token"@)
}

fn text_is(s: &Option<String>, expected: &str) -> (r: bool)
    ensures
        r == text_matches(*s, expected@),
{
    match s {
        Some(v) => {
            let e = expected.to_owned();
            *v == e
        },
        None => false,
    }
}

fn port_is_token(d: &PortDescriptor) -> (r: bool)
    ensures
        r == is_token(*d),
{
    match &d.usb {
        Some(u) => u.vid == TOKEN_VID && u.pid == TOKEN_PID && text_is(&u.manufacturer, "ABW")
            && text_is(&u.product, "STM32 NTRU Token"),
        None => false,
    }
}

/// The name of the port that carries the token. Where several do, the one
/// listed last is taken; where none does, there is no name.
pub fn locate_token(ports: Vec<PortDescriptor>) -> (r: Option<String>)
    ensures
        r is None <==> forall|i: int| 0 <= i < ports@.len() ==> !is_token(#[trigger] ports@[i]),
        r matches Some(name) ==> exists|i: int|
            0 <= i < ports@.len() && is_token(#[trigger] ports@[i]) && ports@[i].port_name@
                == name@ && forall|j: int| i < j < ports@.len() ==> !is_token(#[trigger] ports@[j]),
{
    let mut i: usize = ports.len();
    while i > 0
        invariant
            i <= ports@.len(),
            forall|j: int| i <= j < ports@.len() ==> !is_token(#[trigger] ports@[j]),
        decreases i,
    {
        i = i - 1;
        if port_is_token(&ports[i]) {
            let name = ports[i].port_name.clone();
            return Some(name);
        }
    }
    None
}

} // verus!
