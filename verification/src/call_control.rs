//! Commands to the phone: what a pressed button means, what may be dialled, and
//! how a command that the radio could not carry is kept for the network.

use vstd::prelude::*;

use crate::codec;
use crate::codec::json_object;
use crate::text;
use crate::text::{chars_of, same_text, split_once, starts_with, strip_prefix, trim};

verus! {

/// What the phone is asked to do.
#[derive(Clone, Copy, PartialEq, Eq, Structural, Debug)]
pub enum CallVerb {
    Accept,
    Decline,
    End,
    Mute,
    Unmute,
    SpeakerOn,
    SpeakerOff,
    Silence,
    SmsReject,
    OriginateCall,
    SendSms,
    MarkRead,
    LoadThread,
}

/// What a command asks for: one of the known verbs, or the words of a pill's
/// button, which are handed on as they are.
pub enum CallAction<S = String> {
    Known(CallVerb),
    Words(S),
}

/// A command to the phone.
pub struct CallControl<S = String> {
    /// The call that it is about; empty when it is about none.
    pub id: S,
    pub action: CallAction<S>,
    pub arg: S,
    /// Tells a command from the same one arriving twice.
    pub seq: i64,
}

impl View for CallAction<String> {
    type V = CallAction<Seq<char>>;

    open spec fn view(&self) -> CallAction<Seq<char>> {
        match self {
            CallAction::Known(v) => CallAction::Known(*v),
            CallAction::Words(s) => CallAction::Words(s@),
        }
    }
}

impl View for CallControl<String> {
    type V = CallControl<Seq<char>>;

    open spec fn view(&self) -> CallControl<Seq<char>> {
        CallControl { id: self.id@, action: self.action@, arg: self.arg@, seq: self.seq }
    }
}

/// What a pressed notification button means.
pub enum KeyRoute<S = String> {
    /// The button belongs to another kind of notification.
    NotOurs,
    /// Call this number back.
    Redial(S),
    /// Act on the mirrored call.
    Act(CallVerb),
    /// A call button that this version does not know.
    Unknown,
}

impl View for KeyRoute<String> {
    type V = KeyRoute<Seq<char>>;

    open spec fn view(&self) -> KeyRoute<Seq<char>> {
        match self {
            KeyRoute::NotOurs => KeyRoute::NotOurs,
            KeyRoute::Redial(s) => KeyRoute::Redial(s@),
            KeyRoute::Act(v) => KeyRoute::Act(*v),
            KeyRoute::Unknown => KeyRoute::Unknown,
        }
    }
}

/// The verb that the word of a call button stands for.
pub open spec fn verb_of(word: Seq<char>) -> Option<CallVerb> {
    if word == "accept"@ {
        Some(CallVerb::Accept)
    } else if word == "decline"@ {
        Some(CallVerb::Decline)
    } else if word == "end"@ {
        Some(CallVerb::End)
    } else if word == "mute"@ {
        Some(CallVerb::Mute)
    } else if word == "unmute"@ {
        Some(CallVerb::Unmute)
    } else if word == "speaker_on"@ {
        Some(CallVerb::SpeakerOn)
    } else if word == "speaker_off"@ {
        Some(CallVerb::SpeakerOff)
    } else if word == "silence"@ {
        Some(CallVerb::Silence)
    } else if word == "sms"@ {
        Some(CallVerb::SmsReject)
    } else {
        None
    }
}

/// What the button with the key `key` means.
pub open spec fn key_route(key: Seq<char>) -> KeyRoute<Seq<char>> {
    if !text::has_prefix(key, "call:"@) {
        KeyRoute::NotOurs
    } else {
        let word = key.skip("call:"@.len() as int);
        if text::has_prefix(word, "redial:"@) {
            KeyRoute::Redial(word.skip("redial:"@.len() as int))
        } else {
            match verb_of(word) {
                Some(v) => KeyRoute::Act(v),
                None => KeyRoute::Unknown,
            }
        }
    }
}

fn read_verb(word: &str) -> (r: Option<CallVerb>)
    ensures
        r == verb_of(word@),
{
    if same_text(word, "accept") {
        Some(CallVerb::Accept)
    } else if same_text(word, "decline") {
        Some(CallVerb::Decline)
    } else if same_text(word, "end") {
        Some(CallVerb::End)
    } else if same_text(word, "mute") {
        Some(CallVerb::Mute)
    } else if same_text(word, "unmute") {
        Some(CallVerb::Unmute)
    } else if same_text(word, "speaker_on") {
        Some(CallVerb::SpeakerOn)
    } else if same_text(word, "speaker_off") {
        Some(CallVerb::SpeakerOff)
    } else if same_text(word, "silence") {
        Some(CallVerb::Silence)
    } else if same_text(word, "sms") {
        Some(CallVerb::SmsReject)
    } else {
        None
    }
}

/// What the button with the key `key` means.
pub fn route_key(key: &str) -> (r: KeyRoute)
    ensures
        r@ == key_route(key@),
{
    match strip_prefix(key, "call:") {
        None => KeyRoute::NotOurs,
        Some(word) => match strip_prefix(word.as_str(), "redial:") {
            Some(number) => KeyRoute::Redial(number),
            None => match read_verb(word.as_str()) {
                Some(v) => KeyRoute::Act(v),
                None => KeyRoute::Unknown,
            },
        },
    }
}

/// What a pressed pill button is about.
pub enum PillRoute<S = String> {
    /// The player `package` is to do `act`.
    Media { act: S, package: S },
    /// The mirrored call.
    Call(S),
}

impl View for PillRoute<String> {
    type V = PillRoute<Seq<char>>;

    open spec fn view(&self) -> PillRoute<Seq<char>> {
        match self {
            PillRoute::Media { act, package } => PillRoute::Media { act: act@, package: package@ },
            PillRoute::Call(words) => PillRoute::Call(words@),
        }
    }
}

/// What the pill button `words` is about: one that starts with `media_` carries
/// the player behind its first colon, if it has one.
pub open spec fn pill_route(words: Seq<char>) -> PillRoute<Seq<char>> {
    if text::has_prefix(words, "media_"@) {
        let n = text::first_of(words, ':');
        if n < words.len() {
            PillRoute::Media { act: words.take(n), package: words.skip(n + 1) }
        } else {
            PillRoute::Media { act: words, package: Seq::empty() }
        }
    } else {
        PillRoute::Call(words)
    }
}

/// What the pill button `words` is about.
pub fn route_pill(words: &str) -> (r: PillRoute)
    ensures
        r@ == pill_route(words@),
{
    if !starts_with(words, "media_") {
        return PillRoute::Call(words.to_owned());
    }
    proof {
        text::lemma_first_of(words@, ':');
    }
    match split_once(words, ':') {
        Some((act, package)) => PillRoute::Media { act, package },
        None => {
            let package = String::new();
            assert(package@ == Seq::<char>::empty());
            PillRoute::Media { act: words.to_owned(), package }
        },
    }
}

/// `c` is one of the signs that are written between the digits of a number.
pub open spec fn is_number_sign(c: char) -> bool {
    c == '+' || c == ' ' || c == '-' || c == '(' || c == ')' || c == '.'
}

/// `s` is a phone number: digits, at least one of them, and the usual signs. The
/// signs `*` and `#` are not among these: they start control codes, which the
/// network carries out as soon as the call is placed.
pub open spec fn is_number(s: Seq<char>) -> bool {
    &&& forall|i: int|
        0 <= i < s.len() ==> ('0' <= #[trigger] s[i] <= '9' || is_number_sign(s[i]))
    &&& exists|i: int| 0 <= i < s.len() && '0' <= #[trigger] s[i] <= '9'
}

/// Whether `s` is a plain phone number rather than a control code.
pub fn is_plain_number(s: &str) -> (r: bool)
    ensures
        r == is_number(s@),
{
    let v = chars_of(s);
    let mut digits = false;
    let mut i: usize = 0;
    while i < v.len()
        invariant
            v@ == s@,
            i <= v.len(),
            forall|j: int| 0 <= j < i ==> ('0' <= #[trigger] v@[j] <= '9' || is_number_sign(v@[j])),
            digits <==> exists|j: int| 0 <= j < i && '0' <= #[trigger] v@[j] <= '9',
        decreases v.len() - i,
    {
        let c = v[i];
        if '0' <= c && c <= '9' {
            digits = true;
        } else if c == '+' || c == ' ' || c == '-' || c == '(' || c == ')' || c == '.' {
        } else {
            return false;
        }
        i += 1;
    }
    digits
}

/// Why a number is not dialled.
#[derive(Clone, Copy, PartialEq, Eq, Structural, Debug)]
pub enum DialRefusal {
    /// There is nothing to dial.
    Empty,
    /// It is not a plain phone number.
    NotPlain,
}

/// The commands on their way to the phone.
pub struct Outbox<S = String> {
    /// The number of the next command.
    pub next_seq: i64,
    /// The command that waits for the network, if one does.
    pub pending: Option<CallControl<S>>,
}

impl View for Outbox<String> {
    type V = Outbox<Seq<char>>;

    open spec fn view(&self) -> Outbox<Seq<char>> {
        Outbox {
            next_seq: self.next_seq,
            pending: match self.pending {
                Some(c) => Some(c@),
                None => None,
            },
        }
    }
}

/// The number after `seq`; the numbers start over behind the largest.
pub open spec fn seq_after(seq: i64) -> i64 {
    if seq == i64::MAX {
        i64::MIN
    } else {
        (seq + 1) as i64
    }
}

/// The outbox has given out one number.
pub open spec fn numbered(before: Outbox<Seq<char>>) -> Outbox<Seq<char>> {
    Outbox { next_seq: seq_after(before.next_seq), ..before }
}

/// The argument of a command to send an SMS.
pub open spec fn sms_arg(number: Seq<char>, body: Seq<char>) -> Seq<char> {
    codec::json_object_text(seq![("to"@, number), ("body"@, body)], Seq::empty())
}

/// The argument of a command to mark a conversation as read.
pub open spec fn read_arg(thread: i64, number: Seq<char>) -> Seq<char> {
    codec::json_object_text(seq![("address"@, text::trimmed(number))], seq![("thread"@, thread)])
}

/// `n` within the bounds `lo` and `hi`.
pub open spec fn clamped(n: int, lo: int, hi: int) -> int {
    if n < lo {
        lo
    } else if n > hi {
        hi
    } else {
        n
    }
}

/// The argument of a command to load one page of a conversation.
pub open spec fn page_arg(thread: i64, number: Seq<char>, offset: i64, limit: i64) -> Seq<char> {
    codec::json_object_text(
        seq![("address"@, text::trimmed(number))],
        seq![
            ("thread"@, thread),
            ("offset"@, clamped(offset as int, 0, i64::MAX as int) as i64),
            ("limit"@, clamped(limit as int, 1, 200) as i64),
        ],
    )
}

/// A command that is about no call.
pub open spec fn plain_control(
    before: Outbox<Seq<char>>,
    verb: CallVerb,
    arg: Seq<char>,
) -> CallControl<Seq<char>> {
    CallControl {
        id: Seq::empty(),
        action: CallAction::Known(verb),
        arg,
        seq: before.next_seq,
    }
}

impl Outbox<String> {
    /// No command was given yet.
    pub fn new() -> (r: Self)
        ensures
            r@ == (Outbox::<Seq<char>> { next_seq: 1, pending: None }),
    {
        Outbox { next_seq: 1, pending: None }
    }

    fn take_seq(&mut self) -> (seq: i64)
        ensures
            seq == old(self)@.next_seq,
            final(self)@ == numbered(old(self)@),
    {
        let seq: i64 = self.next_seq;
        self.next_seq = if seq == i64::MAX {
            i64::MIN
        } else {
            seq + 1
        };
        seq
    }

    fn compose(&mut self, verb: CallVerb, arg: String) -> (c: CallControl)
        ensures
            c@ == plain_control(old(self)@, verb, arg@),
            final(self)@ == numbered(old(self)@),
    {
        let seq: i64 = self.take_seq();
        let id = String::new();
        assert(id@ == Seq::<char>::empty());
        CallControl { id, action: CallAction::Known(verb), arg, seq }
    }

    /// A command about the call `call_id`; none when no call is mirrored.
    pub fn call_control(&mut self, action: CallAction, call_id: &str) -> (r: Option<CallControl>)
        ensures
            r is None <==> call_id@.len() == 0,
            match r {
                Some(c) => c@ == (CallControl {
                    id: call_id@,
                    action: action@,
                    arg: Seq::empty(),
                    seq: old(self)@.next_seq,
                }) && final(self)@ == numbered(old(self)@),
                None => final(self)@ == old(self)@,
            },
    {
        if call_id.is_empty() {
            return None;
        }
        let seq: i64 = self.take_seq();
        let arg = String::new();
        assert(arg@ == Seq::<char>::empty());
        Some(CallControl { id: call_id.to_owned(), action, arg, seq })
    }

    /// A command to the player `package`.
    pub fn media_control(&mut self, act: &str, package: &str) -> (c: CallControl)
        ensures
            c@ == (CallControl {
                id: Seq::empty(),
                action: CallAction::Words(act@),
                arg: package@,
                seq: old(self)@.next_seq,
            }),
            final(self)@ == numbered(old(self)@),
    {
        let seq: i64 = self.take_seq();
        let id = String::new();
        assert(id@ == Seq::<char>::empty());
        CallControl { id, action: CallAction::Words(act.to_owned()), arg: package.to_owned(), seq }
    }

    /// A command to place a call. Only a plain phone number is dialled.
    pub fn dial(&mut self, number: &str) -> (r: Result<CallControl, DialRefusal>)
        ensures
            ({
                let n = text::trimmed(number@);
                match r {
                    Ok(c) => {
                        &&& is_number(n)
                        &&& c@ == plain_control(old(self)@, CallVerb::OriginateCall, n)
                        &&& final(self)@ == numbered(old(self)@)
                    },
                    Err(e) => {
                        &&& e == (if n.len() == 0 {
                            DialRefusal::Empty
                        } else {
                            DialRefusal::NotPlain
                        })
                        &&& !is_number(n)
                        &&& final(self)@ == old(self)@
                    },
                }
            }),
    {
        let n = trim(number);
        if n.as_str().is_empty() {
            return Err(DialRefusal::Empty);
        }
        if !is_plain_number(n.as_str()) {
            return Err(DialRefusal::NotPlain);
        }
        Ok(self.compose(CallVerb::OriginateCall, n))
    }

    /// A command to send an SMS; none without a number or a text.
    pub fn send_sms(&mut self, number: &str, body: &str) -> (r: Option<CallControl>)
        ensures
            r is None <==> text::trimmed(number@).len() == 0 || body@.len() == 0,
            match r {
                Some(c) => {
                    &&& c@ == plain_control(
                        old(self)@,
                        CallVerb::SendSms,
                        sms_arg(text::trimmed(number@), body@),
                    )
                    &&& final(self)@ == numbered(old(self)@)
                },
                None => final(self)@ == old(self)@,
            },
    {
        let n = trim(number);
        if n.as_str().is_empty() || body.is_empty() {
            return None;
        }
        let mut texts: Vec<(String, String)> = Vec::new();
        texts.push(("to".to_owned(), n));
        texts.push(("body".to_owned(), body.to_owned()));
        let numbers: Vec<(String, i64)> = Vec::new();
        assert(codec::members(texts@) =~= seq![
            ("to"@, text::trimmed(number@)),
            ("body"@, body@),
        ]);
        assert(codec::number_members(numbers@) =~= Seq::<(Seq<char>, i64)>::empty());
        let arg = json_object(texts, numbers);
        Some(self.compose(CallVerb::SendSms, arg))
    }

    /// A command to mark a conversation as read.
    pub fn mark_sms_read(&mut self, thread: i64, number: &str) -> (c: CallControl)
        ensures
            c@ == plain_control(old(self)@, CallVerb::MarkRead, read_arg(thread, number@)),
            final(self)@ == numbered(old(self)@),
    {
        let mut texts: Vec<(String, String)> = Vec::new();
        texts.push(("address".to_owned(), trim(number)));
        let mut numbers: Vec<(String, i64)> = Vec::new();
        numbers.push(("thread".to_owned(), thread));
        assert(codec::members(texts@) =~= seq![("address"@, text::trimmed(number@))]);
        assert(codec::number_members(numbers@) =~= seq![("thread"@, thread)]);
        let arg = json_object(texts, numbers);
        self.compose(CallVerb::MarkRead, arg)
    }

    /// A command to load one page of a conversation: it starts at `offset`, but
    /// not before the newest message, and holds at least 1 and at most 200.
    pub fn load_sms_thread(
        &mut self,
        thread: i64,
        number: &str,
        offset: i64,
        limit: i64,
    ) -> (c: CallControl)
        ensures
            c@ == plain_control(
                old(self)@,
                CallVerb::LoadThread,
                page_arg(thread, number@, offset, limit),
            ),
            final(self)@ == numbered(old(self)@),
    {
        let offset: i64 = if offset < 0 {
            0
        } else {
            offset
        };
        let limit: i64 = if limit < 1 {
            1
        } else if limit > 200 {
            200
        } else {
            limit
        };
        let mut texts: Vec<(String, String)> = Vec::new();
        texts.push(("address".to_owned(), trim(number)));
        let mut numbers: Vec<(String, i64)> = Vec::new();
        numbers.push(("thread".to_owned(), thread));
        numbers.push(("offset".to_owned(), offset));
        numbers.push(("limit".to_owned(), limit));
        assert(codec::members(texts@) =~= seq![("address"@, text::trimmed(number@))]);
        assert(codec::number_members(numbers@) =~= seq![
            ("thread"@, thread),
            ("offset"@, offset),
            ("limit"@, limit),
        ]);
        let arg = json_object(texts, numbers);
        self.compose(CallVerb::LoadThread, arg)
    }

    /// The radio was tried with `control`: one that it did not carry waits for
    /// the network, in place of any that waited before. Whether the network is
    /// to be woken.
    ///
    /// The network is the way for commands that the radio did not take, and only
    /// for those: what the radio took has been delivered, since the phone brings a
    /// lost frame back by itself, and the one place for a waiting command stays
    /// free for one that needs it. Should a command come both ways all the same,
    /// the phone knows it by its number and obeys once.
    pub fn settle(&mut self, control: CallControl, radio_ok: bool) -> (nudge: bool)
        ensures
            nudge == !radio_ok,
            final(self)@ == (if radio_ok {
                old(self)@
            } else {
                Outbox { pending: Some(control@), ..old(self)@ }
            }),
    {
        if radio_ok {
            return false;
        }
        self.pending = Some(control);
        true
    }

    /// The command that waits for the network; it waits no more.
    pub fn take_pending(&mut self) -> (r: Option<CallControl>)
        ensures
            match r {
                Some(c) => old(self)@.pending == Some(c@),
                None => old(self)@.pending is None,
            },
            final(self)@ == (Outbox { pending: None, ..old(self)@ }),
    {
        self.pending.take()
    }
}

/// No control code gets past the check on numbers: what is dialled holds neither
/// `*` nor `#`.
pub proof fn lemma_no_control_codes(s: Seq<char>, i: int)
    requires
        is_number(s),
        0 <= i < s.len(),
    ensures
        s[i] != '*',
        s[i] != '#',
{
}

/// The numbers of commands given out one after the other differ.
pub proof fn lemma_seq_is_fresh(before: Outbox<Seq<char>>)
    ensures
        numbered(before).next_seq != before.next_seq,
{
}

proof fn lemma_word_of_a_call_button(word: Seq<char>)
    ensures
        text::has_prefix("call:"@ + word, "call:"@),
        ("call:"@ + word).skip("call:"@.len() as int) == word,
{
    let key = "call:"@ + word;
    assert(key.subrange(0, "call:"@.len() as int) =~= "call:"@);
    assert(key.skip("call:"@.len() as int) =~= word);
}

proof fn lemma_no_redial(word: Seq<char>)
    requires
        word.len() == 0 || word[0] != 'r',
    ensures
        !text::has_prefix(word, "redial:"@),
{
    reveal_strlit("redial:");
    if text::has_prefix(word, "redial:"@) {
        assert(word.subrange(0, 7)[0] == word[0]);
        assert("redial:"@[0] == 'r');
    }
}

/// What the buttons of a call do: each word has its verb, a number behind `redial:` is called
/// back as it stands, and a button of something else is left alone.
pub proof fn lemma_what_a_call_button_does(number: Seq<char>, key: Seq<char>)
    ensures
        key_route("call:"@ + "accept"@) == KeyRoute::<Seq<char>>::Act(CallVerb::Accept),
        key_route("call:"@ + "decline"@) == KeyRoute::<Seq<char>>::Act(CallVerb::Decline),
        key_route("call:"@ + "end"@) == KeyRoute::<Seq<char>>::Act(CallVerb::End),
        key_route("call:"@ + "mute"@) == KeyRoute::<Seq<char>>::Act(CallVerb::Mute),
        key_route("call:"@ + "unmute"@) == KeyRoute::<Seq<char>>::Act(CallVerb::Unmute),
        key_route("call:"@ + "speaker_on"@) == KeyRoute::<Seq<char>>::Act(CallVerb::SpeakerOn),
        key_route("call:"@ + "speaker_off"@) == KeyRoute::<Seq<char>>::Act(CallVerb::SpeakerOff),
        key_route("call:"@ + "silence"@) == KeyRoute::<Seq<char>>::Act(CallVerb::Silence),
        key_route("call:"@ + "sms"@) == KeyRoute::<Seq<char>>::Act(CallVerb::SmsReject),
        key_route("call:"@ + ("redial:"@ + number)) == KeyRoute::<Seq<char>>::Redial(number),
        !text::has_prefix(key, "call:"@) ==> key_route(key) is NotOurs,
{
    reveal_strlit("accept");
    reveal_strlit("decline");
    reveal_strlit("end");
    reveal_strlit("mute");
    reveal_strlit("unmute");
    reveal_strlit("speaker_on");
    reveal_strlit("speaker_off");
    reveal_strlit("silence");
    reveal_strlit("sms");
    reveal_strlit("redial:");
    reveal_strlit("call:");
    assert("accept"@.len() == 6 && "decline"@.len() == 7 && "end"@.len() == 3
        && "mute"@.len() == 4 && "unmute"@.len() == 6 && "speaker_on"@.len() == 10
        && "speaker_off"@.len() == 11 && "silence"@.len() == 7 && "sms"@.len() == 3
        && "redial:"@.len() == 7 && "call:"@.len() == 5);
    assert("accept"@[0] != "unmute"@[0]);
    assert("decline"@[0] != "silence"@[0]);
    assert("end"@[0] != "sms"@[0]);
    lemma_word_of_a_call_button("accept"@);
    assert("accept"@[0] != 'r');
    lemma_word_of_a_call_button("decline"@);
    assert("decline"@[0] != 'r');
    lemma_word_of_a_call_button("end"@);
    assert("end"@[0] != 'r');
    lemma_word_of_a_call_button("mute"@);
    assert("mute"@[0] != 'r');
    lemma_word_of_a_call_button("unmute"@);
    assert("unmute"@[0] != 'r');
    lemma_word_of_a_call_button("speaker_on"@);
    assert("speaker_on"@[0] != 'r');
    lemma_word_of_a_call_button("speaker_off"@);
    assert("speaker_off"@[0] != 'r');
    lemma_word_of_a_call_button("silence"@);
    assert("silence"@[0] != 'r');
    lemma_word_of_a_call_button("sms"@);
    assert("sms"@[0] != 'r');
    lemma_no_redial("accept"@);
    lemma_no_redial("decline"@);
    lemma_no_redial("end"@);
    lemma_no_redial("mute"@);
    lemma_no_redial("unmute"@);
    lemma_no_redial("speaker_on"@);
    lemma_no_redial("speaker_off"@);
    lemma_no_redial("silence"@);
    lemma_no_redial("sms"@);
    let word = "redial:"@ + number;
    lemma_word_of_a_call_button(word);
    assert(word.subrange(0, 7) =~= "redial:"@);
    assert(word.skip(7) =~= number);
}

/// A button of the pill is about the player that stands behind its first colon when it begins
/// with `media_`, and about the call otherwise.
pub proof fn lemma_what_a_pill_button_is_about(act: Seq<char>, package: Seq<char>, words: Seq<char>)
    requires
        forall|i: int| 0 <= i < act.len() ==> #[trigger] act[i] != ':',
    ensures
        pill_route("media_"@ + act + seq![':'] + package) == (PillRoute::<Seq<char>>::Media {
            act: "media_"@ + act,
            package,
        }),
        pill_route("media_"@ + act) == (PillRoute::<Seq<char>>::Media {
            act: "media_"@ + act,
            package: Seq::empty(),
        }),
        !text::has_prefix(words, "media_"@) ==> pill_route(words) == PillRoute::<Seq<char>>::Call(
            words,
        ),
{
    reveal_strlit("media_");
    let head = "media_"@ + act;
    let all = head + seq![':'] + package;
    assert("media_"@.len() == 6);
    assert(head.subrange(0, 6) =~= "media_"@);
    assert(all.subrange(0, 6) =~= "media_"@);
    let n = head.len() as int;
    assert forall|i: int| 0 <= i < n implies #[trigger] head[i] != ':' by {
        if i >= 6 {
            assert(head[i] == act[i - 6]);
        } else {
            assert(head[i] == "media_"@[i]);
        }
    }
    assert forall|i: int| 0 <= i < n implies #[trigger] all[i] != ':' by {
        assert(all[i] == head[i]);
    }
    assert(all[n] == ':');
    text::lemma_first_of_is(head, ':', n);
    text::lemma_first_of_is(all, ':', n);
    assert(all.take(n) =~= head);
    assert(all.skip(n + 1) =~= package);
}

/// What can be dialled: digits, with the usual signs among them, and nothing that holds another
/// character.
pub proof fn lemma_what_can_be_dialled(s: &str, r: bool, at: int)
    requires
        call_ensures(is_plain_number, (s,), r),
    ensures
        (s@.len() > 0 && forall|i: int| 0 <= i < s@.len() ==> '0' <= #[trigger] s@[i] <= '9') ==> r,
        0 <= at < s@.len() && '0' <= s@[at] <= '9' && (forall|i: int|
            0 <= i < s@.len() ==> ('0' <= #[trigger] s@[i] <= '9' || s@[i] == '+' || s@[i] == ' '
                || s@[i] == '-' || s@[i] == '(' || s@[i] == ')' || s@[i] == '.')) ==> r,
        r && 0 <= at < s@.len() ==> ('0' <= s@[at] <= '9' || s@[at] == '+' || s@[at] == ' '
            || s@[at] == '-' || s@[at] == '(' || s@[at] == ')' || s@[at] == '.'),
        r ==> exists|i: int| 0 <= i < s@.len() && '0' <= #[trigger] s@[i] <= '9',
{
    if s@.len() > 0 && (forall|i: int| 0 <= i < s@.len() ==> '0' <= #[trigger] s@[i] <= '9') {
        assert('0' <= s@[0] <= '9');
    }
}

/// A plain number is dialled, without the white space around it; nothing else is, and the
/// refusal says why.
pub proof fn lemma_plain_number_is_dialled(
    o: &mut Outbox<String>,
    number: &str,
    r: Result<CallControl, DialRefusal>,
)
    requires
        call_ensures(Outbox::<String>::dial, (o, number), r),
    ensures
        r is Ok <==> is_number(text::trimmed(number@)),
        r is Ok ==> {
            let c = r->Ok_0@;
            &&& c.arg == text::trimmed(number@)
            &&& c.action == CallAction::<Seq<char>>::Known(CallVerb::OriginateCall)
            &&& c.id.len() == 0
            &&& c.seq == old(o)@.next_seq
            &&& final(o)@.next_seq != old(o)@.next_seq
        },
        text::trimmed(number@).len() == 0 ==> r == Err::<CallControl, DialRefusal>(
            DialRefusal::Empty,
        ),
        text::trimmed(number@).len() > 0 && !is_number(text::trimmed(number@)) ==> r == Err::<
            CallControl,
            DialRefusal,
        >(DialRefusal::NotPlain),
        final(o)@.pending == old(o)@.pending,
{
}

/// A command about a call is about the call that is there, and there is none without one; a
/// command to a player carries what the player is asked and its name.
pub proof fn lemma_commands_carry_what_they_are_about(
    o: &mut Outbox<String>,
    action: CallAction,
    call_id: &str,
    r: Option<CallControl>,
    p: &mut Outbox<String>,
    act: &str,
    package: &str,
    media: CallControl,
)
    requires
        call_ensures(Outbox::<String>::call_control, (o, action, call_id), r),
        call_ensures(Outbox::<String>::media_control, (p, act, package), media),
    ensures
        r is Some <==> call_id@.len() > 0,
        r is Some ==> (r->0)@.id == call_id@ && (r->0)@.action == action@ && (r->0)@.arg.len() == 0
            && (r->0)@.seq == old(o)@.next_seq && final(o)@.next_seq != old(o)@.next_seq,
        r is None ==> final(o)@ == old(o)@,
        media@.id.len() == 0 && media@.action == CallAction::<Seq<char>>::Words(act@) && media@.arg
            == package@ && media@.seq == old(p)@.next_seq,
{
}

/// A message needs a number and a text, and carries both; of a conversation one asks for 1 to
/// 200 messages, not before the newest one, and within these bounds for what one asks for.
pub proof fn lemma_messages_and_pages(
    o: &mut Outbox<String>,
    number: &str,
    body: &str,
    r: Option<CallControl>,
    p: &mut Outbox<String>,
    thread: i64,
    offset: i64,
    limit: i64,
    page: CallControl,
    q: &mut Outbox<String>,
    read: CallControl,
)
    requires
        call_ensures(Outbox::<String>::send_sms, (o, number, body), r),
        call_ensures(Outbox::<String>::load_sms_thread, (p, thread, number, offset, limit), page),
        call_ensures(Outbox::<String>::mark_sms_read, (q, thread, number), read),
    ensures
        ({
            let n = text::trimmed(number@);
            let wanted = |from: i64, count: i64|
                codec::json_object_text(
                    seq![("address"@, n)],
                    seq![("thread"@, thread), ("offset"@, from), ("limit"@, count)],
                );
            &&& r is Some <==> n.len() > 0 && body@.len() > 0
            &&& r is Some ==> (r->0)@.action == CallAction::<Seq<char>>::Known(CallVerb::SendSms)
                && (r->0)@.arg == codec::json_object_text(
                seq![("to"@, n), ("body"@, body@)],
                Seq::empty(),
            )
            &&& page@.action == CallAction::<Seq<char>>::Known(CallVerb::LoadThread)
            &&& 0 <= offset && 1 <= limit <= 200 ==> page@.arg == wanted(offset, limit)
            &&& 0 <= offset && limit < 1 ==> page@.arg == wanted(offset, 1)
            &&& 0 <= offset && limit > 200 ==> page@.arg == wanted(offset, 200)
            &&& offset < 0 && 1 <= limit <= 200 ==> page@.arg == wanted(0, limit)
            &&& read@.action == CallAction::<Seq<char>>::Known(CallVerb::MarkRead) && read@.arg
                == codec::json_object_text(seq![("address"@, n)], seq![("thread"@, thread)])
        }),
{
}

/// A command that the radio did not carry waits for the network, and is handed to it once; one
/// that the radio carried does not wait, and puts nothing aside.
pub proof fn lemma_network_gets_what_the_radio_left(
    o: &mut Outbox<String>,
    c: CallControl,
    radio_ok: bool,
    nudge: bool,
    p: &mut Outbox<String>,
    first: Option<CallControl>,
    q: &mut Outbox<String>,
    second: Option<CallControl>,
)
    requires
        call_ensures(Outbox::<String>::settle, (o, c, radio_ok), nudge),
        old(p)@ == final(o)@,
        call_ensures(Outbox::<String>::take_pending, (p,), first),
        old(q)@ == final(p)@,
        call_ensures(Outbox::<String>::take_pending, (q,), second),
    ensures
        nudge <==> !radio_ok,
        !radio_ok ==> first is Some && (first->0)@ == c@,
        radio_ok ==> (first is Some <==> old(o)@.pending is Some),
        radio_ok && first is Some ==> (first->0)@ == old(o)@.pending->0,
        second is None,
        final(q)@.next_seq == old(o)@.next_seq,
{
}

/// A call button with a word that is none of the known ones is nobody else's, and does nothing.
pub proof fn lemma_unknown_call_button(word: Seq<char>)
    requires
        !text::has_prefix(word, "redial:"@),
        word != "accept"@ && word != "decline"@ && word != "end"@ && word != "mute"@ && word != "unmute"@
            && word != "speaker_on"@ && word != "speaker_off"@ && word != "silence"@ && word != "sms"@,
    ensures
        key_route("call:"@ + word) is Unknown,
{
    lemma_word_of_a_call_button(word);
}

} // verus!
