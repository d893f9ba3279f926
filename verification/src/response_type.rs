use vstd::prelude::*;

verus! {

/// The kinds of X event that the window manager tells apart.
#[derive(Clone, Copy, Debug, PartialEq, Eq, Structural)]
pub enum ResponseType {
    DestroyNotify,
    KeyPress,
    MapNotify,
    Unknown,
}

/// Reads `xcb::DESTROY_NOTIFY`, the code of a DestroyNotify event. xcb
/// generates it from the X protocol description, where the event has number
/// 17; the contract claims that value.
#[verifier::external_body]
fn destroy_notify_code() -> (code: u8)
    ensures
        code == 17,
{
    xcb::DESTROY_NOTIFY
}

/// Reads `xcb::KEY_PRESS`, the code of a KeyPress event (number 2 in the X
/// protocol description); the contract claims that value.
#[verifier::external_body]
fn key_press_code() -> (code: u8)
    ensures
        code == 2,
{
    xcb::KEY_PRESS
}

/// Reads `xcb::MAP_NOTIFY`, the code of a MapNotify event (number 19 in the
/// X protocol description); the contract claims that value.
#[verifier::external_body]
fn map_notify_code() -> (code: u8)
    ensures
        code == 19,
{
    xcb::MAP_NOTIFY
}

/// The kind of event that an X response code announces.
pub open spec fn response_type_of(code: u8) -> ResponseType {
    if code == 17 {
        ResponseType::DestroyNotify
    } else if code == 2 {
        ResponseType::KeyPress
    } else if code == 19 {
        ResponseType::MapNotify
    } else {
        ResponseType::Unknown
    }
}

/// Only the code 17 announces a DestroyNotify, only 2 a KeyPress and only 19 a
/// MapNotify; every other code is an event the window manager ignores.
pub proof fn law_response_codes(code: u8)
    ensures
        (response_type_of(code) == ResponseType::DestroyNotify) <==> code == 17,
        (response_type_of(code) == ResponseType::KeyPress) <==> code == 2,
        (response_type_of(code) == ResponseType::MapNotify) <==> code == 19,
        (response_type_of(code) == ResponseType::Unknown) <==> (code != 17 && code != 2 && code
            != 19),
{
}

impl From<u8> for ResponseType {
    fn from(data: u8) -> (r: ResponseType)
        ensures
            (r == ResponseType::DestroyNotify) <==> data == 17,
            (r == ResponseType::KeyPress) <==> data == 2,
            (r == ResponseType::MapNotify) <==> data == 19,
            (r == ResponseType::Unknown) <==> (data != 17 && data != 2 && data != 19),
    {
        if data == destroy_notify_code() {
            ResponseType::DestroyNotify
        } else if data == key_press_code() {
            ResponseType::KeyPress
        } else if data == map_notify_code() {
            ResponseType::MapNotify
        } else {
            ResponseType::Unknown
        }
    }
}

impl vstd::std_specs::convert::FromSpecImpl<u8> for ResponseType {
    open spec fn obeys_from_spec() -> bool {
        true
    }

    open spec fn from_spec(data: u8) -> ResponseType {
        response_type_of(data)
    }
}

} // verus!
