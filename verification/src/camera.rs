//! The phone's camera as a webcam of the laptop.
//!
//! The laptop asks; the phone offers a stream, over two links at nearly the same
//! time; the laptop builds a pipeline into a loopback device, once. An offer that
//! is missing may only be late, so the pipeline outlives a few of those. A
//! pipeline that will not start is given up after a few tries, so that the phone
//! does not keep its camera open for nobody.

use vstd::prelude::*;

use crate::keys;
use crate::keys::parse_key;
use crate::text;
use crate::text::{same_text, trim};

verus! {

/// The failed starts after which the camera is given up.
pub const START_FAIL_LIMIT: u32 = 3;

/// The missing offers in a row after which the pipeline is torn down.
pub const OFFER_MISS_LIMIT: u32 = 4;

/// Which of the phone's lenses is asked for.
#[derive(Debug, Clone, Copy, PartialEq, Eq, Structural)]
pub enum Facing {
    Front,
    Back,
}

/// What is known of the camera.
#[derive(Clone, Copy)]
pub struct Camera {
    /// The user wants it.
    pub wanted: bool,
    /// A pipeline is up, or on its way up.
    pub engaged: bool,
    /// Failed starts in a row.
    pub start_fails: u32,
    /// Missing offers in a row.
    pub misses: u32,
    /// The rotation that the pipeline was built with.
    pub rot: u16,
    pub facing: Facing,
}

/// What the phone offers: the key of the stream, in hexadecimal, and how far the
/// picture is turned.
#[derive(Debug, PartialEq, Eq)]
pub struct CameraOffer<S = String> {
    pub key: S,
    pub rot: u16,
}

impl View for CameraOffer {
    type V = CameraOffer<Seq<char>>;

    open spec fn view(&self) -> CameraOffer<Seq<char>> {
        CameraOffer { key: self.key@, rot: self.rot }
    }
}

/// What an optional offer says.
pub open spec fn offer_view(o: Option<CameraOffer>) -> Option<CameraOffer<Seq<char>>> {
    match o {
        Some(o) => Some(o@),
        None => None,
    }
}

/// What is done about an offer: first perhaps a stop, then perhaps a start with
/// this key.
#[derive(Debug, PartialEq, Eq)]
pub struct CameraAction<K = [u8; 32]> {
    pub stop: bool,
    pub start: Option<K>,
}

impl View for CameraAction {
    type V = CameraAction<Seq<u8>>;

    open spec fn view(&self) -> CameraAction<Seq<u8>> {
        CameraAction { stop: self.stop, start: keys::key_view(self.start) }
    }
}

/// What is done about an offer, or about the lack of one. `reachable` says
/// whether the phone's address is known.
pub open spec fn offer_step(
    st: Camera,
    offer: Option<CameraOffer<Seq<char>>>,
    reachable: bool,
) -> (Camera, CameraAction<Seq<u8>>) {
    match offer {
        Some(o) => {
            let turned = st.engaged && o.rot != st.rot;
            let seen = Camera { misses: 0, engaged: st.engaged && !turned, ..st };
            let key = keys::key_in(o.key);
            if seen.wanted && !seen.engaged && reachable && key is Some {
                (
                    Camera { engaged: true, rot: o.rot, ..seen },
                    CameraAction { stop: turned, start: key },
                )
            } else {
                (seen, CameraAction { stop: turned, start: None })
            }
        },
        None => if !st.engaged {
            (st, CameraAction { stop: false, start: None })
        } else if st.misses + 1 >= OFFER_MISS_LIMIT {
            (
                Camera { misses: 0, engaged: false, ..st },
                CameraAction { stop: true, start: None },
            )
        } else {
            (
                Camera { misses: (st.misses + 1) as u32, ..st },
                CameraAction { stop: false, start: None },
            )
        },
    }
}

/// What coming to an end of a start does: the camera, and whether it was given
/// up.
pub open spec fn started_step(st: Camera, ok: bool) -> (Camera, bool) {
    if ok {
        (Camera { start_fails: 0, ..st }, false)
    } else if st.start_fails + 1 >= START_FAIL_LIMIT {
        (Camera { engaged: false, start_fails: 0, wanted: false, ..st }, true)
    } else {
        (Camera { engaged: false, start_fails: (st.start_fails + 1) as u32, ..st }, false)
    }
}

impl Camera {
    /// Nobody wants the camera.
    pub fn new() -> (r: Self)
        ensures
            r == (Camera {
                wanted: false,
                engaged: false,
                start_fails: 0,
                misses: 0,
                rot: 0,
                facing: Facing::Front,
            }),
    {
        Camera {
            wanted: false,
            engaged: false,
            start_fails: 0,
            misses: 0,
            rot: 0,
            facing: Facing::Front,
        }
    }

    /// Whether the phone is asked for its camera.
    pub fn camera_wanted(&self) -> (r: bool)
        ensures
            r == self.wanted,
    {
        self.wanted
    }

    /// The name of the lens that is asked for.
    pub fn camera_facing(&self) -> (r: String)
        ensures
            r@ == match self.facing {
                Facing::Front => "front"@,
                Facing::Back => "back"@,
            },
    {
        match self.facing {
            Facing::Front => "front".to_string(),
            Facing::Back => "back".to_string(),
        }
    }

    /// Asks for the other lens, or for the same one. Every name but that of the
    /// back lens means the front one.
    pub fn set_camera_facing(&mut self, facing: &str)
        ensures
            *final(self) == (Camera {
                facing: if facing@ == "back"@ {
                    Facing::Back
                } else {
                    Facing::Front
                },
                ..*old(self)
            }),
    {
        self.facing =
        if same_text(facing, "back") {
            Facing::Back
        } else {
            Facing::Front
        };
    }

    /// The user wants the camera, or does not any more. Returns whether the
    /// pipeline is to be stopped.
    pub fn set_wanted(&mut self, on: bool) -> (stop: bool)
        ensures
            stop == !on,
            *final(self) == (Camera {
                wanted: on,
                engaged: on && old(self).engaged,
                ..*old(self)
            }),
    {
        self.wanted = on;
        if !on {
            self.engaged = false;
        }
        !on
    }

    /// The user asks for the camera. Without a device to show it on, the phone is
    /// not even asked.
    pub fn set_camera_request(&mut self, on: bool, device: Result<String, String>) -> (r: Result<
        bool,
        String,
    >)
        ensures
            match device {
                Err(e) => if on {
                    r == Err::<bool, String>(e) && *final(self) == *old(self)
                } else {
                    r == Ok::<bool, String>(true) && *final(self) == (Camera {
                        wanted: false,
                        engaged: false,
                        ..*old(self)
                    })
                },
                Ok(_) => r == Ok::<bool, String>(!on) && *final(self) == (Camera {
                    wanted: on,
                    engaged: on && old(self).engaged,
                    ..*old(self)
                }),
            },
    {
        if on {
            match device {
                Err(e) => return Err(e),
                Ok(_) => {},
            }
        }
        Ok(self.set_wanted(on))
    }

    /// Takes note of an offer, or of the lack of one.
    pub fn dispatch_offer(&mut self, offer: &Option<CameraOffer>, reachable: bool) -> (r:
        CameraAction)
        ensures
            (*final(self), r@) == offer_step(*old(self), offer_view(*offer), reachable),
    {
        match offer {
            Some(o) => {
                self.misses = 0;
                let stop = self.engaged && o.rot != self.rot;
                if stop {
                    self.engaged = false;
                }
                if self.wanted && !self.engaged && reachable {
                    let key = parse_key(o.key.as_str());
                    if key.is_some() {
                        self.engaged = true;
                        self.rot = o.rot;
                    }
                    return CameraAction { stop, start: key };
                }
                CameraAction { stop, start: None }
            },
            None => {
                if self.engaged {
                    if self.misses >= OFFER_MISS_LIMIT - 1 {
                        self.misses = 0;
                        self.engaged = false;
                        return CameraAction { stop: true, start: None };
                    }
                    self.misses = self.misses + 1;
                }
                CameraAction { stop: false, start: None }
            },
        }
    }

    /// A start came to an end. Returns whether the camera was given up.
    pub fn started(&mut self, ok: bool) -> (gave_up: bool)
        ensures
            (*final(self), gave_up) == started_step(*old(self), ok),
    {
        if ok {
            self.start_fails = 0;
            return false;
        }
        self.engaged = false;
        if self.start_fails >= START_FAIL_LIMIT - 1 {
            self.start_fails = 0;
            self.set_wanted(false);
            true
        } else {
            self.start_fails = self.start_fails + 1;
            false
        }
    }

    /// The pipeline came to an end by itself.
    pub fn feed_ended(&mut self)
        ensures
            *final(self) == (Camera { engaged: false, ..*old(self) }),
    {
        self.engaged = false;
    }
}

/// The same offer, arriving over two links, starts one pipeline.
pub proof fn lemma_one_start_per_offer(st: Camera, o: CameraOffer<Seq<char>>, reachable: bool)
    ensures
        ({
            let (st1, a1) = offer_step(st, Some(o), reachable);
            let (st2, a2) = offer_step(st1, Some(o), reachable);
            a1.start is Some ==> a2.start is None && !a2.stop && st2 == st1
        }),
{
}

/// The pipeline outlives offers that are merely late: it is torn down for lack of
/// an offer only after four were missing in a row.
pub proof fn lemma_late_offers_are_forgiven(st: Camera, n: nat)
    requires
        st.engaged,
        st.misses == 0,
    ensures
        n < OFFER_MISS_LIMIT ==> without_offers(st, n).engaged && without_offers(st, n).misses == n,
        n == OFFER_MISS_LIMIT ==> !without_offers(st, n).engaged,
    decreases n,
{
    if 0 < n <= OFFER_MISS_LIMIT {
        lemma_late_offers_are_forgiven(st, (n - 1) as nat);
    }
}

/// The camera after so many missing offers.
pub open spec fn without_offers(st: Camera, n: nat) -> Camera
    decreases n,
{
    if n == 0 {
        st
    } else {
        offer_step(without_offers(st, (n - 1) as nat), None, true).0
    }
}

/// A phone's camera is never held open for a pipeline that does not start: after
/// three failures in a row nobody wants it.
pub proof fn lemma_failures_release_the_camera(st: Camera)
    requires
        st.start_fails == 0,
    ensures
        ({
            let s1 = started_step(st, false).0;
            let s2 = started_step(s1, false).0;
            let s3 = started_step(s2, false).0;
            s1.wanted == st.wanted && s2.wanted == st.wanted && !s3.wanted && !s3.engaged
        }),
{
}

/// The name by which the loopback device is known.
pub const V4L2_CARD_LABEL: &'static str = "Vortex Camera";

/// The loopback device where none has that name.
pub const V4L2_DEVICE: &'static str = "/dev/video42";

/// One video device: its name below `/dev`, its label where it can be read, and
/// whether its node exists.
#[derive(Debug)]
pub struct VideoNode {
    pub node: String,
    pub label: Option<String>,
    pub exists: bool,
}

/// A device is the loopback device.
pub open spec fn is_ours(n: VideoNode) -> bool {
    n.exists && (match n.label {
        Some(l) => text::trimmed(l@) == V4L2_CARD_LABEL@,
        None => false,
    })
}

/// The place of the first loopback device, or the number of devices.
pub open spec fn first_ours(v: Seq<VideoNode>) -> int
    decreases v.len(),
{
    if v.len() == 0 || is_ours(v[0]) {
        0
    } else {
        1 + first_ours(v.drop_first())
    }
}

/// The complaint when there is no loopback device, with what to do about it.
pub open spec fn no_device() -> Seq<char> {
    "Vortex Camera (v4l2loopback) not found. Load the module with:\n  sudo modprobe v4l2loopback video_nr=42 card_label=\"Vortex Camera\" exclusive_caps=1"@
}

/// Finds the loopback device: by its label, and else under its usual number.
pub fn resolve_v4l2_device(nodes: &Vec<VideoNode>, usual_exists: bool) -> (r: Result<String, String>)
    ensures
        if first_ours(nodes@) < nodes@.len() {
            r is Ok && r->Ok_0@ == "/dev/"@ + nodes@[first_ours(nodes@)].node@
        } else if usual_exists {
            r is Ok && r->Ok_0@ == V4L2_DEVICE@
        } else {
            r is Err && r->Err_0@ == no_device()
        },
{
    let mut i: usize = 0;
    assert(nodes@.skip(0) =~= nodes@);
    while i < nodes.len()
        invariant
            i <= nodes@.len(),
            first_ours(nodes@) == i + first_ours(nodes@.skip(i as int)),
        decreases nodes.len() - i,
    {
        assert(nodes@.skip(i as int)[0] == nodes@[i as int]);
        assert(nodes@.skip(i as int).drop_first() =~= nodes@.skip(i + 1));
        let ours = nodes[i].exists && (match &nodes[i].label {
            Some(l) => same_text(trim(l.as_str()).as_str(), V4L2_CARD_LABEL),
            None => false,
        });
        if ours {
            let mut dev = "/dev/".to_string();
            dev.append(nodes[i].node.as_str());
            return Ok(dev);
        }
        i += 1;
    }
    if usual_exists {
        Ok(V4L2_DEVICE.to_string())
    } else {
        Err(
            "Vortex Camera (v4l2loopback) not found. Load the module with:\n  sudo modprobe v4l2loopback video_nr=42 card_label=\"Vortex Camera\" exclusive_caps=1".to_string(),
        )
    }
}

/// The part of the pipeline that turns the picture upright.
pub open spec fn flip_of(rot: u16) -> Seq<char> {
    if rot == 90 {
        "videoflip method=clockwise ! "@
    } else if rot == 180 {
        "videoflip method=rotate-180 ! "@
    } else if rot == 270 {
        "videoflip method=counterclockwise ! "@
    } else {
        ""@
    }
}

/// The pipeline from the phone's stream into the loopback device.
pub open spec fn pipeline_of(rot: u16, device: Seq<char>) -> Seq<char> {
    "appsrc name=src is-live=true format=time do-timestamp=true max-bytes=4194304 caps=video/x-h264,stream-format=byte-stream,alignment=au ! h264parse ! avdec_h264 ! videoconvert ! "@
        + flip_of(rot)
        + "videoscale add-borders=true ! videorate ! video/x-raw,format=YUY2,width=1280,height=720,framerate=30/1 ! v4l2sink device="@
        + device + " sync=false"@
}

/// The pipeline from the phone's stream into the loopback device.
pub fn pipeline_text(rot: u16, device: &str) -> (r: String)
    ensures
        r@ == pipeline_of(rot, device@),
{
    let flip = if rot == 90 {
        "videoflip method=clockwise ! "
    } else if rot == 180 {
        "videoflip method=rotate-180 ! "
    } else if rot == 270 {
        "videoflip method=counterclockwise ! "
    } else {
        ""
    };
    let mut m =
        "appsrc name=src is-live=true format=time do-timestamp=true max-bytes=4194304 caps=video/x-h264,stream-format=byte-stream,alignment=au ! h264parse ! avdec_h264 ! videoconvert ! ".to_string();
    m.append(flip);
    m.append(
        "videoscale add-borders=true ! videorate ! video/x-raw,format=YUY2,width=1280,height=720,framerate=30/1 ! v4l2sink device=",
    );
    m.append(device);
    m.append(" sync=false");
    m
}

/// A stage of starting the pipeline.
#[derive(Debug, Clone, Copy, PartialEq, Eq, Structural)]
pub enum StartStage {
    Init,
    Device,
    Build,
    Downcast,
    Source,
    Play,
}

/// What is said when a stage fails.
pub open spec fn stage_text(stage: StartStage, e: Seq<char>) -> Seq<char> {
    match stage {
        StartStage::Init => "gst init: "@ + e,
        StartStage::Device => e,
        StartStage::Build => "build pipeline: "@ + e,
        StartStage::Downcast => "pipeline downcast"@,
        StartStage::Source => "appsrc missing"@,
        StartStage::Play => "pipeline play: "@ + e,
    }
}

/// What is said when a stage fails.
pub fn stage_failed(stage: StartStage, e: &str) -> (r: String)
    ensures
        r@ == stage_text(stage, e@),
{
    let head = match stage {
        StartStage::Init => "gst init: ",
        StartStage::Device => "",
        StartStage::Build => "build pipeline: ",
        StartStage::Downcast => return "pipeline downcast".to_string(),
        StartStage::Source => return "appsrc missing".to_string(),
        StartStage::Play => "pipeline play: ",
    };
    let mut m = head.to_string();
    m.append(e);
    proof {
        reveal_strlit("");
        assert(""@ + e@ =~= e@);
    }
    m
}

/// What happened to a running pipeline.
#[derive(Debug, Clone, Copy, PartialEq, Eq, Structural)]
pub enum FeedEvent {
    /// The pipeline failed, or came to its end.
    Fatal,
    /// It is to be stopped.
    Stop,
    /// A picture arrived from the phone.
    Frame,
    /// The phone closed the stream.
    Closed,
    /// The pipeline took the picture, or did not.
    Pushed { ok: bool },
}

/// What follows.
#[derive(Debug, Clone, Copy, PartialEq, Eq, Structural)]
pub enum FeedAction {
    Wait,
    /// Hand the picture to the pipeline; the first one is worth a line in the log.
    Push { first: bool },
    End,
}

/// A running pipeline.
pub struct Feed {
    pub first: bool,
}

impl Feed {
    /// No picture has arrived yet.
    pub fn new() -> (r: Self)
        ensures
            r.first,
    {
        Feed { first: true }
    }

    /// Takes note of an event and says what follows.
    pub fn step(&mut self, ev: FeedEvent) -> (r: FeedAction)
        ensures
            r == match ev {
                FeedEvent::Fatal => FeedAction::End,
                FeedEvent::Stop => FeedAction::End,
                FeedEvent::Closed => FeedAction::End,
                FeedEvent::Frame => FeedAction::Push { first: old(self).first },
                FeedEvent::Pushed { ok } => if ok {
                    FeedAction::Wait
                } else {
                    FeedAction::End
                },
            },
            final(self).first == (old(self).first && !(ev is Frame)),
    {
        match ev {
            FeedEvent::Fatal => FeedAction::End,
            FeedEvent::Stop => FeedAction::End,
            FeedEvent::Closed => FeedAction::End,
            FeedEvent::Frame => {
                let first = self.first;
                self.first = false;
                FeedAction::Push { first }
            },
            FeedEvent::Pushed { ok } => {
                if ok {
                    FeedAction::Wait
                } else {
                    FeedAction::End
                }
            },
        }
    }
}

/// An offer starts the pipeline exactly when the user wants the camera, none is running, or the
/// one that is was built for another rotation, the phone can be reached, and the key can be read;
/// it starts with that key and that rotation. A pipeline that was built for another rotation is
/// stopped first.
pub proof fn lemma_offer_starts_the_camera(
    st: Camera,
    o: CameraOffer<Seq<char>>,
    reachable: bool,
)
    ensures
        ({
            let (next, action) = offer_step(st, Some(o), reachable);
            let fits = st.engaged && o.rot == st.rot;
            &&& action.start is Some <==> st.wanted && !fits && reachable && keys::key_in(
                o.key,
            ) is Some
            &&& action.start is Some ==> action.start == keys::key_in(o.key) && next.engaged
                && next.rot == o.rot
            &&& action.stop <==> st.engaged && o.rot != st.rot
            &&& action.start is None ==> next.engaged == fits && next.rot == st.rot
            &&& next.misses == 0
            &&& next.wanted == st.wanted && next.facing == st.facing && next.start_fails
                == st.start_fails
        }),
{
}

/// Without an offer nothing happens to a camera that is off. One that is on is stopped with the
/// fourth offer in a row that is missing, and counts them until then.
pub proof fn lemma_missing_offers(st: Camera, reachable: bool)
    ensures
        ({
            let (next, action) = offer_step(st, None, reachable);
            &&& action.start is None
            &&& !st.engaged ==> next == st && !action.stop
            &&& st.engaged && st.misses >= 3 ==> action.stop && next == (Camera {
                engaged: false,
                misses: 0,
                ..st
            })
            &&& st.engaged && st.misses < 3 ==> !action.stop && next == (Camera {
                misses: (st.misses + 1) as u32,
                ..st
            })
        }),
{
}

/// A start that succeeds ends the row of failures. One that fails makes room for another, up to
/// the third in a row: then the camera is given up and nobody wants it.
pub proof fn lemma_starts_are_counted(st: Camera)
    ensures
        started_step(st, true) == (Camera { start_fails: 0, ..st }, false),
        st.start_fails < 2 ==> started_step(st, false) == (
            Camera { engaged: false, start_fails: (st.start_fails + 1) as u32, ..st },
            false,
        ),
        st.start_fails >= 2 ==> started_step(st, false) == (
            Camera { engaged: false, start_fails: 0, wanted: false, ..st },
            true,
        ),
{
}

/// The user's word: asking for the camera needs a device to show it on, and without one nothing
/// changes and the reason is given. Not wanting it any more stops it at once. The end of a
/// pipeline by itself leaves the wish.
pub proof fn lemma_users_word_on_the_camera(
    asked: &mut Camera,
    on: bool,
    device: Result<String, String>,
    r: Result<bool, String>,
    ended: &mut Camera,
    turned: &mut Camera,
    facing: &str,
)
    requires
        call_ensures(Camera::set_camera_request, (asked, on, device), r),
        call_ensures(Camera::feed_ended, (ended,), ()),
        call_ensures(Camera::set_camera_facing, (turned, facing), ()),
    ensures
        on && device is Err ==> r is Err && r->Err_0 == device->Err_0 && *final(asked) == *old(
            asked,
        ),
        on && device is Ok ==> r is Ok && !r->Ok_0 && final(asked).wanted && final(asked).engaged
            == old(asked).engaged,
        !on ==> r is Ok && r->Ok_0 && !final(asked).wanted && !final(asked).engaged,
        final(asked).facing == old(asked).facing && final(asked).rot == old(asked).rot,
        !final(ended).engaged && final(ended).wanted == old(ended).wanted,
        facing@ == "back"@ ==> final(turned).facing is Back,
        facing@ != "back"@ ==> final(turned).facing is Front,
        final(turned).wanted == old(turned).wanted && final(turned).engaged == old(turned).engaged,
{
}

/// The lens that is asked for goes by its name, and the name that is set is the name that is
/// told.
pub proof fn lemma_lens_has_a_name(
    c: &mut Camera,
    facing: &str,
    after: &Camera,
    told: String,
    wanted: bool,
)
    requires
        facing@ == "back"@ || facing@ == "front"@,
        call_ensures(Camera::set_camera_facing, (c, facing), ()),
        *after == *final(c),
        call_ensures(Camera::camera_facing, (after,), told),
        call_ensures(Camera::camera_wanted, (after,), wanted),
    ensures
        told@ == facing@,
        wanted == old(c).wanted,
{
    reveal_strlit("back");
    reveal_strlit("front");
    assert("back"@.len() != "front"@.len());
}

/// The place of the first device that is there and bears the name of the loopback device.
pub proof fn lemma_first_loopback_device(v: Seq<VideoNode>, i: int)
    requires
        0 <= i <= v.len(),
        forall|j: int|
            0 <= j < i ==> !((#[trigger] v[j]).exists && v[j].label is Some && text::trimmed(
                v[j].label->0@,
            ) == "Vortex Camera"@),
        i < v.len() ==> v[i].exists && v[i].label is Some && text::trimmed(v[i].label->0@)
            == "Vortex Camera"@,
    ensures
        first_ours(v) == i,
    decreases v.len(),
{
    if i > 0 {
        assert(!is_ours(v[0]));
        let rest = v.drop_first();
        assert forall|j: int| 0 <= j < i - 1 implies !((#[trigger] rest[j]).exists
            && rest[j].label is Some && text::trimmed(rest[j].label->0@) == "Vortex Camera"@) by {
            assert(rest[j] == v[j + 1]);
        }
        lemma_first_loopback_device(rest, i - 1);
    }
}

/// The stream is shown on the first device that bears the name of the loopback device, else on
/// the one with its usual number, and else not at all.
pub proof fn lemma_stream_has_a_device(
    nodes: &Vec<VideoNode>,
    usual: bool,
    r: Result<String, String>,
    i: int,
)
    requires
        call_ensures(resolve_v4l2_device, (nodes, usual), r),
        0 <= i <= nodes@.len(),
        forall|j: int|
            0 <= j < i ==> !((#[trigger] nodes@[j]).exists && nodes@[j].label is Some
                && text::trimmed(nodes@[j].label->0@) == "Vortex Camera"@),
        i < nodes@.len() ==> nodes@[i].exists && nodes@[i].label is Some && text::trimmed(
            nodes@[i].label->0@,
        ) == "Vortex Camera"@,
    ensures
        i < nodes@.len() ==> r is Ok && r->Ok_0@ == "/dev/"@ + nodes@[i].node@,
        i == nodes@.len() && usual ==> r is Ok && r->Ok_0@ == "/dev/video42"@,
        i == nodes@.len() && !usual ==> r is Err,
{
    lemma_first_loopback_device(nodes@, i);
}

/// The pipeline reads the stream, turns it as far as the phone was turned, and writes to the
/// device that it was given.
pub proof fn lemma_pipeline_turns_the_picture(rot: u16, device: Seq<char>)
    ensures
        ({
            let p = pipeline_of(rot, device);
            let head =
                "appsrc name=src is-live=true format=time do-timestamp=true max-bytes=4194304 caps=video/x-h264,stream-format=byte-stream,alignment=au ! h264parse ! avdec_h264 ! videoconvert ! "@;
            let tail =
                "videoscale add-borders=true ! videorate ! video/x-raw,format=YUY2,width=1280,height=720,framerate=30/1 ! v4l2sink device="@
                + device + " sync=false"@;
            &&& rot == 90 ==> p == head + "videoflip method=clockwise ! "@ + tail
            &&& rot == 180 ==> p == head + "videoflip method=rotate-180 ! "@ + tail
            &&& rot == 270 ==> p == head + "videoflip method=counterclockwise ! "@ + tail
            &&& rot != 90 && rot != 180 && rot != 270 ==> p == head + tail
        }),
{
    reveal_strlit("");
    let head =
        "appsrc name=src is-live=true format=time do-timestamp=true max-bytes=4194304 caps=video/x-h264,stream-format=byte-stream,alignment=au ! h264parse ! avdec_h264 ! videoconvert ! "@;
    let scale =
        "videoscale add-borders=true ! videorate ! video/x-raw,format=YUY2,width=1280,height=720,framerate=30/1 ! v4l2sink device="@;
    let tail = scale + device + " sync=false"@;
    assert(pipeline_of(rot, device) =~= head + flip_of(rot) + tail);
    assert(head + ""@ + tail =~= head + tail);
}

/// Every picture of the phone goes to the pipeline, and only the first is worth a note; the feed
/// ends when the pipeline fails, refuses a picture or is to stop, or when the phone closes the
/// stream, and for nothing else.
pub proof fn lemma_feed_hands_on_every_picture(f: &mut Feed, ev: FeedEvent, r: FeedAction)
    requires
        call_ensures(Feed::step, (f, ev), r),
    ensures
        ev is Frame <==> r is Push,
        ev is Frame ==> r->first == old(f).first && !final(f).first,
        !(ev is Frame) ==> final(f).first == old(f).first,
        r is End <==> ev is Fatal || ev is Stop || ev is Closed || ev == (FeedEvent::Pushed {
            ok: false,
        }),
{
}

/// What a failed start says names the stage that failed and, where there is one, the reason.
pub proof fn lemma_stages_are_named(e: Seq<char>)
    ensures
        stage_text(StartStage::Init, e) == "gst init: "@ + e,
        stage_text(StartStage::Device, e) == e,
        stage_text(StartStage::Build, e) == "build pipeline: "@ + e,
        stage_text(StartStage::Downcast, e) == "pipeline downcast"@,
        stage_text(StartStage::Source, e) == "appsrc missing"@,
        stage_text(StartStage::Play, e) == "pipeline play: "@ + e,
{
}

/// Without a device the user is told how to get one.
pub proof fn lemma_missing_device_in_words(nodes: &Vec<VideoNode>, r: Result<String, String>)
    requires
        call_ensures(resolve_v4l2_device, (nodes, false), r),
    ensures
        nodes@.len() == 0 ==> r is Err,
        r is Err ==> r->Err_0@
            == "Vortex Camera (v4l2loopback) not found. Load the module with:\n  sudo modprobe v4l2loopback video_nr=42 card_label=\"Vortex Camera\" exclusive_caps=1"@,
{
}

/// Not wanting the camera stops it, and wanting it again does not start it by itself.
pub proof fn lemma_camera_is_wanted_or_not(
    c: &mut Camera,
    on: bool,
    stop: bool,
)
    requires
        call_ensures(Camera::set_wanted, (c, on), stop),
    ensures
        stop <==> !on,
        final(c).wanted == on,
        !on ==> !final(c).engaged,
        on ==> final(c).engaged == old(c).engaged,
{
}

/// A fresh camera is neither wanted nor engaged, nothing has failed yet, and the front lens is
/// the first.
pub proof fn lemma_fresh_camera(r: Camera)
    requires
        call_ensures(Camera::new, (), r),
    ensures
        !r.wanted && !r.engaged,
        r.start_fails == 0 && r.misses == 0 && r.rot == 0,
        r.facing is Front,
{
}

} // verus!
