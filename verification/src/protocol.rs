//! The requests of the `XTEST` extension that synthesize input.
//!
//! Nothing is sent from here. The functions of this module fill in the
//! fields of a `FakeInput` request and order the requests of a keystroke; the
//! owner of the connection submits them. The event codes and the two null
//! values are taken from `x11rb`, and the contracts pin the numbers that the
//! protocol assigns to them.
use vstd::prelude::*;

verus! {

/// Core protocol event code of a key press.
pub const KEY_PRESS: u8 = 2;

/// Core protocol event code of a key release.
pub const KEY_RELEASE: u8 = 3;

/// Core protocol event code of a button press.
pub const BUTTON_PRESS: u8 = 4;

/// Core protocol event code of a button release.
pub const BUTTON_RELEASE: u8 = 5;

/// Core protocol event code of pointer motion.
pub const MOTION_NOTIFY: u8 = 6;

/// The timestamp that stands for "now" on the server.
pub const CURRENT_TIME: u32 = 0;

/// The null resource. As a device id it means "no particular device".
pub const NONE: u32 = 0;

/// Reads `x11rb::protocol::xproto::KEY_PRESS_EVENT`, a constant equal to 2.
#[verifier::external_body]
fn key_press_event() -> (code: u8)
    ensures
        code == KEY_PRESS,
{
    x11rb::protocol::xproto::KEY_PRESS_EVENT
}

/// Reads `x11rb::protocol::xproto::KEY_RELEASE_EVENT`, a constant equal to 3.
#[verifier::external_body]
fn key_release_event() -> (code: u8)
    ensures
        code == KEY_RELEASE,
{
    x11rb::protocol::xproto::KEY_RELEASE_EVENT
}

/// Reads `x11rb::protocol::xproto::BUTTON_PRESS_EVENT`, a constant equal to 4.
#[verifier::external_body]
fn button_press_event() -> (code: u8)
    ensures
        code == BUTTON_PRESS,
{
    x11rb::protocol::xproto::BUTTON_PRESS_EVENT
}

/// Reads `x11rb::protocol::xproto::BUTTON_RELEASE_EVENT`, a constant equal
/// to 5.
#[verifier::external_body]
fn button_release_event() -> (code: u8)
    ensures
        code == BUTTON_RELEASE,
{
    x11rb::protocol::xproto::BUTTON_RELEASE_EVENT
}

/// Reads `x11rb::protocol::xproto::MOTION_NOTIFY_EVENT`, a constant equal
/// to 6.
#[verifier::external_body]
fn motion_notify_event() -> (code: u8)
    ensures
        code == MOTION_NOTIFY,
{
    x11rb::protocol::xproto::MOTION_NOTIFY_EVENT
}

/// Reads `x11rb::CURRENT_TIME`, a constant equal to 0.
#[verifier::external_body]
fn current_time() -> (time: u32)
    ensures
        time == CURRENT_TIME,
{
    x11rb::CURRENT_TIME
}

/// Reads `x11rb::NONE`, a constant equal to 0.
#[verifier::external_body]
fn none() -> (id: u32)
    ensures
        id == NONE,
{
    x11rb::NONE
}

/// The fields of one `FakeInput` request.
#[derive(Clone, Copy, Debug, PartialEq, Eq, Structural)]
pub struct FakeInput {
    /// Event code: what kind of input is synthesized.
    pub type_: u8,
    /// Keycode or button number; 0 for motion.
    pub detail: u8,
    /// Server time at which the event is to happen.
    pub time: u32,
    /// The window that the coordinates are relative to.
    pub root: u32,
    pub root_x: i16,
    pub root_y: i16,
    /// The input device that the event claims to come from.
    pub deviceid: u8,
}

/// One step the owner of the connection takes, in the order given.
#[derive(Clone, Copy, Debug, PartialEq, Eq, Structural)]
pub enum Action {
    /// Submit the request and go on without waiting.
    Send(FakeInput),
    /// Submit the request and wait for the server to accept or reject it.
    SendChecked(FakeInput),
    /// Push everything submitted so far out to the server.
    Flush,
}

/// A request of the given kind, timed "now" and coming from no particular
/// device.
pub open spec fn fake_input(type_: u8, detail: u8, root: u32, x: i16, y: i16) -> FakeInput {
    FakeInput { type_, detail, time: CURRENT_TIME, root, root_x: x, root_y: y, deviceid: 0 }
}

/// The detail byte of a key request: the keycode's low eight bits.
pub open spec fn key_detail(keycode: u32) -> u8 {
    (keycode % 256) as u8
}

/// The request that moves the pointer to `(x, y)`.
pub open spec fn motion(root: u32, x: i16, y: i16) -> FakeInput {
    fake_input(MOTION_NOTIFY, 0, root, x, y)
}

/// The request that presses or releases `button` at `(x, y)`.
pub open spec fn button(root: u32, x: i16, y: i16, number: u8, press: bool) -> FakeInput {
    fake_input(
        if press {
            BUTTON_PRESS
        } else {
            BUTTON_RELEASE
        },
        number,
        root,
        x,
        y,
    )
}

/// The unconfirmed press of the key `keycode`.
pub open spec fn key_press(root: u32, keycode: u32) -> Action {
    Action::Send(fake_input(KEY_PRESS, key_detail(keycode), root, 0, 0))
}

/// The unconfirmed release of the key `keycode`.
pub open spec fn key_release(root: u32, keycode: u32) -> Action {
    Action::Send(fake_input(KEY_RELEASE, key_detail(keycode), root, 0, 0))
}

/// A whole keystroke: the modifier keys go down in the order given, the data
/// key goes down and up, the modifier keys come up in the opposite order, and
/// the connection is flushed once.
pub open spec fn keystroke(root: u32, mods: Seq<u32>, keycode: u32) -> Seq<Action> {
    mods.map_values(|m: u32| key_press(root, m)) + seq![
        key_press(root, keycode),
        key_release(root, keycode),
    ] + mods.reverse().map_values(|m: u32| key_release(root, m)) + seq![Action::Flush]
}

/// The shape of a keystroke over `n` modifier keys: `2 * n + 3` steps, the
/// presses first, then the data key down and up, then the releases as the
/// mirror image of the presses (the key pressed `i`-th is released `i`-th
/// from last), then the flush.
pub proof fn lemma_keystroke_mirror(root: u32, mods: Seq<u32>, keycode: u32)
    ensures
        keystroke(root, mods, keycode).len() == 2 * mods.len() + 3,
        forall|i: int|
            0 <= i < mods.len() ==> #[trigger] keystroke(root, mods, keycode)[i] == key_press(
                root,
                mods[i],
            ),
        keystroke(root, mods, keycode)[mods.len() as int] == key_press(root, keycode),
        keystroke(root, mods, keycode)[mods.len() as int + 1] == key_release(root, keycode),
        forall|i: int|
            0 <= i < mods.len() ==> #[trigger] keystroke(root, mods, keycode)[2 * mods.len() + 1
                - i] == key_release(root, mods[i]),
        keystroke(root, mods, keycode)[2 * mods.len() as int + 2] == Action::Flush,
{
    let n = mods.len() as int;
    let all = keystroke(root, mods, keycode);
    let releases = mods.reverse().map_values(|m: u32| key_release(root, m));
    assert forall|i: int| 0 <= i < n implies #[trigger] all[2 * n + 1 - i] == key_release(
        root,
        mods[i],
    ) by {
        assert(all[2 * n + 1 - i] == releases[n - 1 - i]);
        assert(mods.reverse()[n - 1 - i] == mods[i]);
    }
}

/// Builds the request that moves the pointer to `(x, y)`.
pub fn motion_request(root: u32, x: i16, y: i16) -> (request: FakeInput)
    ensures
        request == motion(root, x, y),
{
    let deviceid: u32 = none();
    FakeInput {
        type_: motion_notify_event(),
        detail: 0,
        time: current_time(),
        root,
        root_x: x,
        root_y: y,
        deviceid: deviceid as u8,
    }
}

/// Builds the request that presses (`press`) or releases button `number` at
/// `(x, y)`.
pub fn button_request(root: u32, x: i16, y: i16, number: u8, press: bool) -> (request: FakeInput)
    ensures
        request == button(root, x, y, number, press),
{
    let deviceid: u32 = none();
    let type_: u8 = if press {
        button_press_event()
    } else {
        button_release_event()
    };
    FakeInput {
        type_,
        detail: number,
        time: current_time(),
        root,
        root_x: x,
        root_y: y,
        deviceid: deviceid as u8,
    }
}

/// Builds the unconfirmed press (`press`) or release of the key `keycode`.
pub fn key_request(root: u32, keycode: u32, press: bool) -> (action: Action)
    ensures
        action == if press {
            key_press(root, keycode)
        } else {
            key_release(root, keycode)
        },
{
    let deviceid: u32 = none();
    let type_: u8 = if press {
        key_press_event()
    } else {
        key_release_event()
    };
    Action::Send(
        FakeInput {
            type_,
            detail: (keycode % 256) as u8,
            time: current_time(),
            root,
            root_x: 0,
            root_y: 0,
            deviceid: deviceid as u8,
        },
    )
}

/// Orders the requests of one keystroke.
pub fn keystroke_actions(root: u32, mods: &Vec<u32>, keycode: u32) -> (actions: Vec<Action>)
    ensures
        actions@ == keystroke(root, mods@, keycode),
{
    let ghost presses = mods@.map_values(|m: u32| key_press(root, m));
    let ghost releases = mods@.reverse().map_values(|m: u32| key_release(root, m));
    let ghost data = seq![key_press(root, keycode), key_release(root, keycode)];
    let n = mods.len();
    let mut actions: Vec<Action> = Vec::new();
    let mut i: usize = 0;
    while i < n
        invariant
            n == mods@.len(),
            i <= n,
            presses == mods@.map_values(|m: u32| key_press(root, m)),
            actions@ == presses.take(i as int),
        decreases n - i,
    {
        actions.push(key_request(root, mods[i], true));
        assert(actions@ =~= presses.take(i + 1));
        i = i + 1;
    }
    assert(presses.take(n as int) =~= presses);
    actions.push(key_request(root, keycode, true));
    actions.push(key_request(root, keycode, false));
    assert(actions@ =~= presses + data);
    let mut j: usize = n;
    while j > 0
        invariant
            n == mods@.len(),
            j <= n,
            releases == mods@.reverse().map_values(|m: u32| key_release(root, m)),
            actions@ == presses + data + releases.take(n - j),
        decreases j,
    {
        j = j - 1;
        actions.push(key_request(root, mods[j], false));
        assert(releases[n - 1 - j] == key_release(root, mods@[j as int]));
        assert(actions@ =~= presses + data + releases.take(n - j));
    }
    assert(releases.take(n as int) =~= releases);
    actions.push(Action::Flush);
    assert(actions@ =~= keystroke(root, mods@, keycode));
    actions
}

} // verus!
