//! Sharing the pointer and the keyboard with the phone on Windows: the pointer
//! that touches the armed edge of the screen is held there, and from then on
//! what the user does goes to the phone instead of the desktop.

use vstd::prelude::*;

use crate::platform::vk_to_evdev;
use crate::platform::vk_to_evdev::vk_to_evdev;
use crate::platform::Edge;

verus! {

/// The number of an edge.
pub fn edge_code(edge: Edge) -> (r: i32)
    ensures
        r == (match edge {
            Edge::Left => 0i32,
            Edge::Right => 1,
            Edge::Top => 2,
            Edge::Bottom => 3,
        }),
{
    match edge {
        Edge::Left => 0,
        Edge::Right => 1,
        Edge::Top => 2,
        Edge::Bottom => 3,
    }
}

/// The point (`x`, `y`) lies on or beyond an edge of a screen of `w` by `h`. The
/// pointer stops one pixel before the far edges.
pub open spec fn on_edge(edge: Edge, x: i32, y: i32, w: i32, h: i32) -> bool {
    match edge {
        Edge::Left => x <= 0,
        Edge::Right => x >= w - 1,
        Edge::Top => y <= 0,
        Edge::Bottom => y >= h - 1,
    }
}

/// What the mouse does.
#[derive(Clone, Copy, PartialEq, Eq, Structural, Debug)]
pub enum MouseMessage {
    Move,
    LeftDown,
    LeftUp,
    MiddleDown,
    MiddleUp,
    RightDown,
    RightUp,
    /// The wheel turns; the amount is in the high half of the data.
    Wheel { data: u32 },
    /// The wheel tilts.
    HWheel { data: u32 },
    Other,
}

/// What goes to the phone. The amounts of a scroll are in units of a 120th notch.
#[derive(Clone, Copy, PartialEq, Eq, Structural, Debug)]
pub enum CapturedEvent {
    Motion { dx: i64, dy: i64 },
    /// 1 for left, 2 for middle, 3 for right.
    Button { button: u8, pressed: bool },
    Scroll { across: i16, along: i16 },
    Key { keycode: u16, pressed: bool },
}

/// What becomes of a message.
#[derive(Clone, Copy, PartialEq, Eq, Structural, Debug)]
pub enum Verdict {
    /// It goes on to the desktop.
    Pass,
    /// The pointer has touched the edge: pin it at this point, and take over.
    Take { x: i32, y: i32 },
    /// The desktop does not see it; the phone gets this, if anything.
    Swallow(Option<CapturedEvent>),
    /// As before, and the pointer goes back to the pin, so that the next move is
    /// measured from there again.
    SwallowAndRecentre { event: CapturedEvent, x: i32, y: i32 },
}

/// The signed amount in the high half of a wheel's data.
pub open spec fn wheel_amount(data: u32) -> int {
    let hi = data as int / 0x1_0000;
    if hi >= 0x8000 {
        hi - 0x1_0000
    } else {
        hi
    }
}

fn wheel(data: u32) -> (r: i16)
    ensures
        r == wheel_amount(data),
{
    let hi: i32 = (data / 0x1_0000) as i32;
    if hi >= 0x8000 {
        (hi - 0x1_0000) as i16
    } else {
        hi as i16
    }
}

/// The state of input sharing.
#[derive(Clone, Copy)]
pub struct WindowsInputCapture {
    /// The edge that is armed.
    pub armed: Option<Edge>,
    /// The input is taken over.
    pub capturing: bool,
    /// Where the pointer is pinned.
    pub pin_x: i32,
    pub pin_y: i32,
}

/// What a mouse message means while the input is taken over.
pub open spec fn captured_mouse(
    st: WindowsInputCapture,
    msg: MouseMessage,
    x: i32,
    y: i32,
) -> Verdict {
    let button = |b: u8, p: bool|
        Verdict::Swallow(Some(CapturedEvent::Button { button: b, pressed: p }));
    match msg {
        MouseMessage::Move => if x == st.pin_x && y == st.pin_y {
            Verdict::Swallow(None)
        } else {
            Verdict::SwallowAndRecentre {
                event: CapturedEvent::Motion {
                    dx: (x - st.pin_x) as i64,
                    dy: (y - st.pin_y) as i64,
                },
                x: st.pin_x,
                y: st.pin_y,
            }
        },
        MouseMessage::LeftDown => button(1, true),
        MouseMessage::LeftUp => button(1, false),
        MouseMessage::MiddleDown => button(2, true),
        MouseMessage::MiddleUp => button(2, false),
        MouseMessage::RightDown => button(3, true),
        MouseMessage::RightUp => button(3, false),
        MouseMessage::Wheel { data } => Verdict::Swallow(
            Some(CapturedEvent::Scroll { across: 0, along: wheel_amount(data) as i16 }),
        ),
        MouseMessage::HWheel { data } => Verdict::Swallow(
            Some(CapturedEvent::Scroll { across: wheel_amount(data) as i16, along: 0 }),
        ),
        MouseMessage::Other => Verdict::Swallow(None),
    }
}

impl WindowsInputCapture {
    /// Nothing is armed.
    pub fn new() -> (r: Self)
        ensures
            r == (WindowsInputCapture { armed: None, capturing: false, pin_x: 0, pin_y: 0 }),
    {
        WindowsInputCapture { armed: None, capturing: false, pin_x: 0, pin_y: 0 }
    }

    /// Arms an edge.
    pub fn arm(&mut self, edge: Edge)
        ensures
            *final(self) == (WindowsInputCapture { armed: Some(edge), ..*old(self) }),
    {
        self.armed = Some(edge);
    }

    /// Gives the input back.
    pub fn release(&mut self)
        ensures
            *final(self) == (WindowsInputCapture { armed: None, capturing: false, ..*old(self) }),
    {
        self.armed = None;
        self.capturing = false;
    }

    /// Whether the pointer has reached the armed edge.
    pub fn at_armed_edge(&self, x: i32, y: i32, w: i32, h: i32) -> (r: bool)
        ensures
            r == (match self.armed {
                Some(edge) => on_edge(edge, x, y, w, h),
                None => false,
            }),
    {
        match self.armed {
            None => false,
            Some(edge) => match edge {
                Edge::Left => x <= 0,
                Edge::Right => x as i64 >= w as i64 - 1,
                Edge::Top => y <= 0,
                Edge::Bottom => y as i64 >= h as i64 - 1,
            },
        }
    }

    /// Takes in a mouse message at the point (`x`, `y`) of a screen of `w` by
    /// `h`. Until the pointer touches the armed edge everything passes; from then
    /// on nothing does.
    pub fn mouse_hook(&mut self, msg: MouseMessage, x: i32, y: i32, w: i32, h: i32) -> (r: Verdict)
        ensures
            old(self).capturing ==> r == captured_mouse(*old(self), msg, x, y) && *final(self)
                == *old(self),
            !old(self).capturing ==> {
                let touched = msg is Move && (match old(self).armed {
                    Some(edge) => on_edge(edge, x, y, w, h),
                    None => false,
                });
                if touched {
                    r == (Verdict::Take { x, y }) && *final(self) == (WindowsInputCapture {
                        capturing: true,
                        pin_x: x,
                        pin_y: y,
                        ..*old(self)
                    })
                } else {
                    r == Verdict::Pass && *final(self) == *old(self)
                }
            },
    {
        if !self.capturing {
            if msg == MouseMessage::Move && self.at_armed_edge(x, y, w, h) {
                self.pin_x = x;
                self.pin_y = y;
                self.capturing = true;
                return Verdict::Take { x, y };
            }
            return Verdict::Pass;
        }
        match msg {
            MouseMessage::Move => {
                if x == self.pin_x && y == self.pin_y {
                    return Verdict::Swallow(None);
                }
                let dx: i64 = x as i64 - self.pin_x as i64;
                let dy: i64 = y as i64 - self.pin_y as i64;
                Verdict::SwallowAndRecentre {
                    event: CapturedEvent::Motion { dx, dy },
                    x: self.pin_x,
                    y: self.pin_y,
                }
            },
            MouseMessage::LeftDown => pressed_button(1, true),
            MouseMessage::LeftUp => pressed_button(1, false),
            MouseMessage::MiddleDown => pressed_button(2, true),
            MouseMessage::MiddleUp => pressed_button(2, false),
            MouseMessage::RightDown => pressed_button(3, true),
            MouseMessage::RightUp => pressed_button(3, false),
            MouseMessage::Wheel { data } => Verdict::Swallow(
                Some(CapturedEvent::Scroll { across: 0, along: wheel(data) }),
            ),
            MouseMessage::HWheel { data } => Verdict::Swallow(
                Some(CapturedEvent::Scroll { across: wheel(data), along: 0 }),
            ),
            MouseMessage::Other => Verdict::Swallow(None),
        }
    }

    /// Takes in a key: `pressed` tells whether it went down or up, if the message
    /// is about that at all. While the input is taken over a key that the phone
    /// knows goes there, and any other to the desktop, so that none is lost.
    pub fn key_hook(&self, vk: u32, pressed: Option<bool>) -> (r: Verdict)
        ensures
            match r {
                Verdict::Pass => !self.capturing || pressed is None || vk % 0x1_0000 == 0
                    || forall|code: int|
                    vk_to_evdev::key_at(code) != vk_to_evdev::sided((vk % 0x1_0000) as u16),
                Verdict::Swallow(Some(CapturedEvent::Key { keycode, pressed: p })) => {
                    &&& self.capturing
                    &&& pressed == Some(p)
                    &&& vk % 0x1_0000 != 0
                    &&& vk_to_evdev::key_at(keycode as int) == vk_to_evdev::sided(
                        (vk % 0x1_0000) as u16,
                    )
                },
                _ => false,
            },
    {
        if !self.capturing {
            return Verdict::Pass;
        }
        match pressed {
            None => Verdict::Pass,
            Some(p) => match vk_to_evdev((vk % 0x1_0000) as u16) {
                Some(keycode) => Verdict::Swallow(
                    Some(CapturedEvent::Key { keycode, pressed: p }),
                ),
                None => Verdict::Pass,
            },
        }
    }
}

fn pressed_button(button: u8, pressed: bool) -> (r: Verdict)
    ensures
        r == Verdict::Swallow(Some(CapturedEvent::Button { button, pressed })),
{
    Verdict::Swallow(Some(CapturedEvent::Button { button, pressed }))
}

/// While the input is taken over, no mouse message reaches the desktop.
pub proof fn lemma_nothing_leaks(st: WindowsInputCapture, msg: MouseMessage, x: i32, y: i32)
    requires
        st.capturing,
    ensures
        !(captured_mouse(st, msg, x, y) is Pass),
        !(captured_mouse(st, msg, x, y) is Take),
{
}

/// Nothing is taken over before the pointer moves onto the armed edge, and without an armed
/// edge nothing ever is; the pointer is pinned where it touched.
pub proof fn lemma_edge_takes_over(
    st: &mut WindowsInputCapture,
    msg: MouseMessage,
    x: i32,
    y: i32,
    w: i32,
    h: i32,
    r: Verdict,
)
    requires
        !old(st).capturing,
        call_ensures(WindowsInputCapture::mouse_hook, (st, msg, x, y, w, h), r),
    ensures
        ({
            let touches = |edge: Edge, there: bool|
                old(st).armed == Some(edge) ==> (r == (Verdict::Take { x, y }) <==> msg is Move && there);
            &&& old(st).armed is None ==> r is Pass
            &&& touches(Edge::Left, x <= 0)
            &&& touches(Edge::Right, x >= w - 1)
            &&& touches(Edge::Top, y <= 0)
            &&& touches(Edge::Bottom, y >= h - 1)
            &&& r is Take ==> r == (Verdict::Take { x, y }) && final(st).capturing && final(st).pin_x == x
                && final(st).pin_y == y && final(st).armed == old(st).armed
            &&& !(r is Take) ==> r is Pass && *final(st) == *old(st)
        }),
{
}

/// While the input is taken over, the phone gets what the mouse does: how far it moved from the
/// pin, to which it goes back, which button went down or up, and how far which wheel turned.
pub proof fn lemma_phone_gets_the_mouse(st: WindowsInputCapture, x: i32, y: i32, data: u32)
    ensures
        ({
            let to = |msg: MouseMessage| captured_mouse(st, msg, x, y);
            let hi = data / 0x1_0000;
            &&& (x != st.pin_x || y != st.pin_y) ==> to(MouseMessage::Move) == (
            Verdict::SwallowAndRecentre {
                event: CapturedEvent::Motion {
                    dx: (x - st.pin_x) as i64,
                    dy: (y - st.pin_y) as i64,
                },
                x: st.pin_x,
                y: st.pin_y,
            })
            &&& x == st.pin_x && y == st.pin_y ==> to(MouseMessage::Move) == Verdict::Swallow(None)
            &&& to(MouseMessage::LeftDown) == Verdict::Swallow(
                Some(CapturedEvent::Button { button: 1, pressed: true }),
            )
            &&& to(MouseMessage::LeftUp) == Verdict::Swallow(
                Some(CapturedEvent::Button { button: 1, pressed: false }),
            )
            &&& to(MouseMessage::MiddleDown) == Verdict::Swallow(
                Some(CapturedEvent::Button { button: 2, pressed: true }),
            )
            &&& to(MouseMessage::MiddleUp) == Verdict::Swallow(
                Some(CapturedEvent::Button { button: 2, pressed: false }),
            )
            &&& to(MouseMessage::RightDown) == Verdict::Swallow(
                Some(CapturedEvent::Button { button: 3, pressed: true }),
            )
            &&& to(MouseMessage::RightUp) == Verdict::Swallow(
                Some(CapturedEvent::Button { button: 3, pressed: false }),
            )
            &&& to(MouseMessage::Other) == Verdict::Swallow(None)
            &&& hi < 0x8000 ==> to(MouseMessage::Wheel { data }) == Verdict::Swallow(
                Some(CapturedEvent::Scroll { across: 0, along: hi as i16 }),
            )
            &&& hi >= 0x8000 ==> to(MouseMessage::Wheel { data }) == Verdict::Swallow(
                Some(CapturedEvent::Scroll { across: 0, along: (hi - 0x1_0000) as i16 }),
            )
            &&& hi < 0x8000 ==> to(MouseMessage::HWheel { data }) == Verdict::Swallow(
                Some(CapturedEvent::Scroll { across: hi as i16, along: 0 }),
            )
        }),
{
}

/// Giving the input back ends it: nothing is armed, and everything passes again.
pub proof fn lemma_release_gives_back(
    st: &mut WindowsInputCapture,
    after: &mut WindowsInputCapture,
    msg: MouseMessage,
    x: i32,
    y: i32,
    w: i32,
    h: i32,
    r: Verdict,
    key: &WindowsInputCapture,
    vk: u32,
    pressed: Option<bool>,
    k: Verdict,
)
    requires
        call_ensures(WindowsInputCapture::release, (st,), ()),
        *old(after) == *final(st),
        call_ensures(WindowsInputCapture::mouse_hook, (after, msg, x, y, w, h), r),
        *key == *final(st),
        call_ensures(WindowsInputCapture::key_hook, (key, vk, pressed), k),
    ensures
        r is Pass && k is Pass,
        final(st).armed is None && !final(st).capturing,
{
}

/// Each edge has its number.
pub proof fn lemma_numbers_of_the_edges(edge: Edge, r: i32)
    requires
        call_ensures(edge_code, (edge,), r),
    ensures
        edge is Left ==> r == 0,
        edge is Right ==> r == 1,
        edge is Top ==> r == 2,
        edge is Bottom ==> r == 3,
{
}

/// An edge that was armed is watched, and the points on it and beyond it count.
pub proof fn lemma_armed_edge_is_watched(
    st: &mut WindowsInputCapture,
    edge: Edge,
    after: &WindowsInputCapture,
    x: i32,
    y: i32,
    w: i32,
    h: i32,
    r: bool,
)
    requires
        call_ensures(WindowsInputCapture::arm, (st, edge), ()),
        *after == *final(st),
        call_ensures(WindowsInputCapture::at_armed_edge, (after, x, y, w, h), r),
    ensures
        edge is Left ==> (r <==> x <= 0),
        edge is Right ==> (r <==> x >= w - 1),
        edge is Top ==> (r <==> y <= 0),
        edge is Bottom ==> (r <==> y >= h - 1),
        final(st).capturing == old(st).capturing,
{
}

} // verus!
