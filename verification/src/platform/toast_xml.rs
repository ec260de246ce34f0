//! The XML document that a Windows notification is built from. Its texts come
//! from the phone, so everything that XML gives a meaning to is escaped: a
//! message must neither break the document nor add a button to it.

use vstd::prelude::*;

use crate::text;
use crate::text::{chars_of, push_char};

verus! {

/// What a character is written as inside the document.
pub open spec fn entity(c: char) -> Seq<char> {
    if c == '&' {
        "&amp;"@
    } else if c == '<' {
        "&lt;"@
    } else if c == '>' {
        "&gt;"@
    } else if c == '"' {
        "&quot;"@
    } else if c == '\'' {
        "&apos;"@
    } else {
        seq![c]
    }
}

/// A text with the five characters escaped that XML gives a meaning to.
pub open spec fn escaped(s: Seq<char>) -> Seq<char>
    decreases s.len(),
{
    if s.len() == 0 {
        Seq::empty()
    } else {
        escaped(s.drop_last()) + entity(s.last())
    }
}

/// Escapes the five characters that XML gives a meaning to.
pub fn escape(s: &str) -> (r: String)
    ensures
        r@ == escaped(s@),
{
    let v = chars_of(s);
    let mut r = String::new();
    let mut i: usize = 0;
    assert(s@.take(0) =~= Seq::<char>::empty());
    assert(r@ =~= Seq::<char>::empty());
    while i < v.len()
        invariant
            v@ == s@,
            i <= v@.len(),
            r@ == escaped(s@.take(i as int)),
        decreases v.len() - i,
    {
        let c = v[i];
        let ghost before = r@;
        if c == '&' {
            r.append("&amp;");
        } else if c == '<' {
            r.append("&lt;");
        } else if c == '>' {
            r.append("&gt;");
        } else if c == '"' {
            r.append("&quot;");
        } else if c == '\'' {
            r.append("&apos;");
        } else {
            push_char(&mut r, c);
            assert(r@ =~= before + seq![c]);
        }
        assert(s@.take(i + 1).drop_last() =~= s@.take(i as int));
        assert(s@.take(i + 1).last() == c);
        i += 1;
    }
    assert(s@.take(i as int) =~= s@);
    r
}

/// One button: `key` comes back when it is pressed, `label` is what it says.
pub open spec fn button(key: Seq<char>, label: Seq<char>) -> Seq<char> {
    "<action content=\""@ + (escaped(label) + ("\" arguments=\""@ + (escaped(key)
        + "\" activationType=\"foreground\"/>"@)))
}

/// The buttons, one after the other, and what follows them.
pub open spec fn buttons(actions: Seq<(Seq<char>, Seq<char>)>, rest: Seq<char>) -> Seq<char>
    decreases actions.len(),
{
    if actions.len() == 0 {
        rest
    } else {
        button(actions[0].0, actions[0].1) + buttons(actions.drop_first(), rest)
    }
}

/// The end of the document, from the buttons on.
pub open spec fn toast_end(actions: Seq<(Seq<char>, Seq<char>)>) -> Seq<char> {
    if actions.len() == 0 {
        "</toast>"@
    } else {
        "<actions>"@ + buttons(actions, "</actions></toast>"@)
    }
}

/// One line of text, and what follows it.
pub open spec fn text_line(s: Seq<char>, rest: Seq<char>) -> Seq<char> {
    "<text>"@ + (escaped(s) + ("</text>"@ + rest))
}

/// The document, from its second line of text on; an empty one has no element.
pub open spec fn toast_body(body: Seq<char>, actions: Seq<(Seq<char>, Seq<char>)>) -> Seq<char> {
    let rest = "</binding></visual>"@ + toast_end(actions);
    if body.len() == 0 {
        rest
    } else {
        text_line(body, rest)
    }
}

/// The document of a notification.
pub open spec fn toast_doc(
    summary: Seq<char>,
    body: Seq<char>,
    actions: Seq<(Seq<char>, Seq<char>)>,
    urgent: bool,
) -> Seq<char> {
    (if urgent {
        "<toast scenario=\"urgent\""@
    } else {
        "<toast"@
    }) + ("><visual><binding template=\"ToastGeneric\">"@ + text_line(
        summary,
        toast_body(body, actions),
    ))
}

/// What a list of buttons says.
pub open spec fn actions_view(actions: Seq<(String, String)>) -> Seq<(Seq<char>, Seq<char>)> {
    actions.map_values(|a: (String, String)| (a.0@, a.1@))
}

fn put(xml: &mut String, piece: &str, Ghost(rest): Ghost<Seq<char>>)
    ensures
        final(xml)@ == old(xml)@ + piece@,
        final(xml)@ + rest == old(xml)@ + (piece@ + rest),
{
    xml.append(piece);
    assert(xml@ + rest =~= old(xml)@ + (piece@ + rest));
}

fn put_buttons(xml: &mut String, actions: &Vec<(String, String)>, Ghost(rest): Ghost<Seq<char>>)
    ensures
        final(xml)@ + rest == old(xml)@ + buttons(actions_view(actions@), rest),
{
    let ghost all = actions_view(actions@);
    let ghost doc = xml@ + buttons(all, rest);
    let mut i: usize = 0;
    assert(all.skip(0) =~= all);
    while i < actions.len()
        invariant
            all == actions_view(actions@),
            i <= actions@.len(),
            xml@ + buttons(all.skip(i as int), rest) == doc,
        decreases actions.len() - i,
    {
        let key = escape(actions[i].0.as_str());
        let label = escape(actions[i].1.as_str());
        let ghost before = xml@;
        let ghost left = all.skip(i as int);
        let ghost next = buttons(all.skip(i + 1), rest);
        assert(left[0] == (actions@[i as int].0@, actions@[i as int].1@));
        assert(left.drop_first() =~= all.skip(i + 1));
        xml.append("<action content=\"");
        xml.append(label.as_str());
        xml.append("\" arguments=\"");
        xml.append(key.as_str());
        xml.append("\" activationType=\"foreground\"/>");
        assert(xml@ =~= before + button(left[0].0, left[0].1));
        assert(xml@ + next =~= before + buttons(left, rest));
        i += 1;
    }
    assert(all.skip(i as int) =~= Seq::<(Seq<char>, Seq<char>)>::empty());
}

/// Builds the document of a notification.
///
/// A button is its key and its label; the key comes back when it is pressed. An
/// urgent notification stays up until it is acted on.
pub fn toast_xml(
    summary: &str,
    body: &str,
    actions: &Vec<(String, String)>,
    urgent: bool,
) -> (r: String)
    ensures
        r@ == toast_doc(summary@, body@, actions_view(actions@), urgent),
{
    let ghost all = actions_view(actions@);
    let ghost doc = toast_doc(summary@, body@, all, urgent);
    let ghost end = toast_end(all);
    let ghost after_text = "</binding></visual>"@ + end;
    let ghost rest = toast_body(body@, all);
    let mut xml = if urgent {
        "<toast scenario=\"urgent\"".to_owned()
    } else {
        "<toast".to_owned()
    };
    let title = escape(summary);
    put(
        &mut xml,
        "><visual><binding template=\"ToastGeneric\">",
        Ghost(text_line(summary@, rest)),
    );
    put(&mut xml, "<text>", Ghost(escaped(summary@) + ("</text>"@ + rest)));
    put(&mut xml, title.as_str(), Ghost("</text>"@ + rest));
    put(&mut xml, "</text>", Ghost(rest));
    if !body.is_empty() {
        let line = escape(body);
        put(&mut xml, "<text>", Ghost(escaped(body@) + ("</text>"@ + after_text)));
        put(&mut xml, line.as_str(), Ghost("</text>"@ + after_text));
        put(&mut xml, "</text>", Ghost(after_text));
    }
    assert(xml@ + after_text == doc);
    put(&mut xml, "</binding></visual>", Ghost(end));
    if actions.len() > 0 {
        put(&mut xml, "<actions>", Ghost(buttons(all, "</actions></toast>"@)));
        put_buttons(&mut xml, actions, Ghost("</actions></toast>"@));
        xml.append("</actions></toast>");
    } else {
        xml.append("</toast>");
    }
    assert(xml@ == doc);
    xml
}

/// How often `pat` stands in `s`.
pub open spec fn count_of(s: Seq<char>, pat: Seq<char>) -> nat
    decreases s.len(),
{
    if s.len() == 0 {
        0
    } else {
        (if text::has_prefix(s, pat) {
            1nat
        } else {
            0
        }) + count_of(s.drop_first(), pat)
    }
}

/// Escaped text holds none of the characters that XML gives a meaning to, but
/// for the ampersands of the escapes.
pub proof fn lemma_escaped_is_harmless(s: Seq<char>)
    ensures
        forall|i: int|
            0 <= i < escaped(s).len() ==> (#[trigger] escaped(s)[i]) != '<' && escaped(s)[i] != '>'
                && escaped(s)[i] != '"' && escaped(s)[i] != '\'',
    decreases s.len(),
{
    if s.len() > 0 {
        lemma_escaped_is_harmless(s.drop_last());
        reveal_strlit("&amp;");
        reveal_strlit("&lt;");
        reveal_strlit("&gt;");
        reveal_strlit("&quot;");
        reveal_strlit("&apos;");
        let head = escaped(s.drop_last());
        assert forall|i: int| 0 <= i < escaped(s).len() implies (#[trigger] escaped(s)[i]) != '<'
            && escaped(s)[i] != '>' && escaped(s)[i] != '"' && escaped(s)[i] != '\'' by {
            if i < head.len() {
                assert(escaped(s)[i] == head[i]);
            } else {
                assert(escaped(s)[i] == entity(s.last())[i - head.len()]);
            }
        }
    }
}

/// A piece of the document starts no button: no `<` in it is followed by what
/// makes one.
spec fn starts_no_button(piece: Seq<char>) -> bool {
    forall|i: int|
        0 <= i < piece.len() && (#[trigger] piece[i]) == '<' ==> (i + 1 < piece.len() && piece[i
            + 1] != 'a') || (i + 7 < piece.len() && piece[i + 7] != ' ')
}

proof fn lemma_skip_piece(piece: Seq<char>, rest: Seq<char>)
    requires
        starts_no_button(piece),
    ensures
        count_of(piece + rest, "<action "@) == count_of(rest, "<action "@),
    decreases piece.len(),
{
    let pat = "<action "@;
    if piece.len() == 0 {
        assert(piece + rest =~= rest);
    } else {
        reveal_strlit("<action ");
        let s = piece + rest;
        let tail = piece.drop_first();
        assert(s.drop_first() =~= tail + rest);
        assert(starts_no_button(tail)) by {
            assert forall|i: int| 0 <= i < tail.len() && (#[trigger] tail[i]) == '<' implies (i + 1
                < tail.len() && tail[i + 1] != 'a') || (i + 7 < tail.len() && tail[i + 7]
                != ' ') by {
                assert(piece[i + 1] == '<');
            }
        }
        lemma_skip_piece(tail, rest);
        if text::has_prefix(s, pat) {
            let w = s.subrange(0, 8);
            assert(w[0] == s[0] && w[1] == s[1] && w[7] == s[7]);
            assert(s[0] == '<' && s[1] == 'a' && s[7] == ' ');
            assert(piece[0] == '<');
            assert(false);
        }
    }
}

proof fn lemma_escaped_starts_no_button(s: Seq<char>)
    ensures
        starts_no_button(escaped(s)),
{
    lemma_escaped_is_harmless(s);
}

proof fn lemma_count_button(key: Seq<char>, label: Seq<char>, rest: Seq<char>)
    ensures
        count_of(button(key, label) + rest, "<action "@) == 1 + count_of(rest, "<action "@),
{
    let pat = "<action "@;
    let head = "<action content=\""@;
    let mid = "\" arguments=\""@;
    let end = "\" activationType=\"foreground\"/>"@;
    reveal_strlit("<action ");
    reveal_strlit("<action content=\"");
    reveal_strlit("\" arguments=\"");
    reveal_strlit("\" activationType=\"foreground\"/>");
    lemma_escaped_starts_no_button(key);
    lemma_escaped_starts_no_button(label);
    let r3 = end + rest;
    let r2 = mid + (escaped(key) + r3);
    let r1 = escaped(label) + r2;
    let s = button(key, label) + rest;
    assert(s =~= head + r1);
    lemma_skip_piece(end, rest);
    lemma_skip_piece(escaped(key), r3);
    lemma_skip_piece(mid, escaped(key) + r3);
    lemma_skip_piece(escaped(label), r2);
    assert(text::has_prefix(s, pat)) by {
        assert(s.subrange(0, 8) =~= pat);
    }
    let tail = head.drop_first();
    assert(s.drop_first() =~= tail + r1);
    lemma_skip_piece(tail, r1);
}

proof fn lemma_count_buttons(actions: Seq<(Seq<char>, Seq<char>)>, rest: Seq<char>)
    ensures
        count_of(buttons(actions, rest), "<action "@) == actions.len() + count_of(
            rest,
            "<action "@,
        ),
    decreases actions.len(),
{
    if actions.len() > 0 {
        lemma_count_buttons(actions.drop_first(), rest);
        lemma_count_button(actions[0].0, actions[0].1, buttons(actions.drop_first(), rest));
    }
}

proof fn lemma_count_plain(piece: Seq<char>)
    requires
        starts_no_button(piece),
    ensures
        count_of(piece, "<action "@) == 0,
{
    lemma_skip_piece(piece, Seq::empty());
    assert(piece + Seq::<char>::empty() =~= piece);
}

/// Texts cannot add buttons: whatever the title, the text, the keys and the
/// labels hold, the document has exactly the buttons that were asked for.
pub proof fn lemma_no_injected_buttons(
    summary: Seq<char>,
    body: Seq<char>,
    actions: Seq<(Seq<char>, Seq<char>)>,
    urgent: bool,
)
    ensures
        count_of(toast_doc(summary, body, actions, urgent), "<action "@) == actions.len(),
{
    reveal_strlit("<toast scenario=\"urgent\"");
    reveal_strlit("<toast");
    reveal_strlit("><visual><binding template=\"ToastGeneric\">");
    reveal_strlit("<text>");
    reveal_strlit("</text>");
    reveal_strlit("</binding></visual>");
    reveal_strlit("<actions>");
    reveal_strlit("</actions></toast>");
    reveal_strlit("</toast>");
    lemma_escaped_starts_no_button(summary);
    lemma_escaped_starts_no_button(body);
    let end = toast_end(actions);
    if actions.len() == 0 {
        lemma_count_plain("</toast>"@);
    } else {
        lemma_count_plain("</actions></toast>"@);
        lemma_count_buttons(actions, "</actions></toast>"@);
        lemma_skip_piece("<actions>"@, buttons(actions, "</actions></toast>"@));
    }
    let after_text = "</binding></visual>"@ + end;
    lemma_skip_piece("</binding></visual>"@, end);
    lemma_count_line(body, after_text);
    let rest = toast_body(body, actions);
    lemma_count_line(summary, rest);
    let visual = "><visual><binding template=\"ToastGeneric\">"@;
    lemma_skip_piece(visual, text_line(summary, rest));
    if urgent {
        lemma_skip_piece("<toast scenario=\"urgent\""@, visual + text_line(summary, rest));
    } else {
        lemma_skip_piece("<toast"@, visual + text_line(summary, rest));
    }
}

proof fn lemma_count_line(s: Seq<char>, rest: Seq<char>)
    ensures
        count_of(text_line(s, rest), "<action "@) == count_of(rest, "<action "@),
{
    reveal_strlit("<text>");
    reveal_strlit("</text>");
    lemma_escaped_starts_no_button(s);
    lemma_skip_piece("</text>"@, rest);
    lemma_skip_piece(escaped(s), "</text>"@ + rest);
    lemma_skip_piece("<text>"@, escaped(s) + ("</text>"@ + rest));
}

/// Escaping goes character by character: a sum of texts is escaped as the sum of
/// what its parts are escaped as, so that no escape is ever escaped again.
pub proof fn lemma_escaping_a_sum(a: Seq<char>, b: Seq<char>)
    ensures
        escaped(a + b) == escaped(a) + escaped(b),
    decreases b.len(),
{
    if b.len() == 0 {
        assert(a + b =~= a);
        assert(escaped(a) + escaped(b) =~= escaped(a));
    } else {
        lemma_escaping_a_sum(a, b.drop_last());
        assert((a + b).drop_last() =~= a + b.drop_last());
        assert((a + b).last() == b.last());
        assert(escaped(a + b) =~= escaped(a) + escaped(b));
    }
}

/// A piece of the document starts no line of text: no `<` in it is followed by what
/// makes one.
spec fn starts_no_text(piece: Seq<char>) -> bool {
    forall|i: int|
        0 <= i < piece.len() && (#[trigger] piece[i]) == '<' ==> (i + 1 < piece.len() && piece[i
            + 1] != 't') || (i + 2 < piece.len() && piece[i + 2] != 'e')
}

proof fn lemma_skip_no_text(piece: Seq<char>, rest: Seq<char>)
    requires
        starts_no_text(piece),
    ensures
        count_of(piece + rest, "<text>"@) == count_of(rest, "<text>"@),
    decreases piece.len(),
{
    let pat = "<text>"@;
    if piece.len() == 0 {
        assert(piece + rest =~= rest);
    } else {
        reveal_strlit("<text>");
        let s = piece + rest;
        let tail = piece.drop_first();
        assert(s.drop_first() =~= tail + rest);
        assert(starts_no_text(tail)) by {
            assert forall|i: int| 0 <= i < tail.len() && (#[trigger] tail[i]) == '<' implies (i + 1
                < tail.len() && tail[i + 1] != 't') || (i + 2 < tail.len() && tail[i + 2]
                != 'e') by {
                assert(piece[i + 1] == '<');
            }
        }
        lemma_skip_no_text(tail, rest);
        if text::has_prefix(s, pat) {
            let w = s.subrange(0, 6);
            assert(w[0] == s[0] && w[1] == s[1] && w[2] == s[2]);
            assert(s[0] == '<' && s[1] == 't' && s[2] == 'e');
            assert(piece[0] == '<');
            assert(false);
        }
    }
}

proof fn lemma_count_text_line(s: Seq<char>, rest: Seq<char>)
    ensures
        count_of(text_line(s, rest), "<text>"@) == 1 + count_of(rest, "<text>"@),
{
    reveal_strlit("<text>");
    reveal_strlit("</text>");
    let open = "<text>"@;
    let close = "</text>"@;
    let after = escaped(s) + (close + rest);
    let doc = text_line(s, rest);
    lemma_escaped_is_harmless(s);
    lemma_skip_no_text(close, rest);
    lemma_skip_no_text(escaped(s), close + rest);
    let tail = open.drop_first();
    assert(doc.subrange(0, 6) =~= open);
    assert(doc.drop_first() =~= tail + after);
    lemma_skip_no_text(tail, after);
}

proof fn lemma_no_text_in_buttons(actions: Seq<(Seq<char>, Seq<char>)>, rest: Seq<char>)
    ensures
        count_of(buttons(actions, rest), "<text>"@) == count_of(rest, "<text>"@),
    decreases actions.len(),
{
    if actions.len() > 0 {
        let next = buttons(actions.drop_first(), rest);
        lemma_no_text_in_buttons(actions.drop_first(), rest);
        let key = actions[0].0;
        let label = actions[0].1;
        reveal_strlit("<action content=\"");
        reveal_strlit("\" arguments=\"");
        reveal_strlit("\" activationType=\"foreground\"/>");
        let start = "<action content=\""@;
        let mid = "\" arguments=\""@;
        let end = "\" activationType=\"foreground\"/>"@;
        lemma_escaped_is_harmless(key);
        lemma_escaped_is_harmless(label);
        lemma_skip_no_text(end, next);
        lemma_skip_no_text(escaped(key), end + next);
        lemma_skip_no_text(mid, escaped(key) + (end + next));
        lemma_skip_no_text(escaped(label), mid + (escaped(key) + (end + next)));
        lemma_skip_no_text(start, escaped(label) + (mid + (escaped(key) + (end + next))));
        assert(button(key, label) + next =~= start + (escaped(label) + (mid + (escaped(key) + (end
            + next)))));
    }
}

/// A notification has one line of text, or two where it has a body, whatever its
/// texts and buttons say.
pub proof fn lemma_lines_of_text(
    summary: Seq<char>,
    body: Seq<char>,
    actions: Seq<(Seq<char>, Seq<char>)>,
    urgent: bool,
)
    ensures
        count_of(toast_doc(summary, body, actions, urgent), "<text>"@) == if body.len() == 0 {
            1nat
        } else {
            2
        },
{
    reveal_strlit("<toast scenario=\"urgent\"");
    reveal_strlit("<toast");
    reveal_strlit("><visual><binding template=\"ToastGeneric\">");
    reveal_strlit("</binding></visual>");
    reveal_strlit("<actions>");
    reveal_strlit("</actions></toast>");
    reveal_strlit("</toast>");
    let none = Seq::<char>::empty();
    assert("</toast>"@ + none =~= "</toast>"@);
    lemma_skip_no_text("</toast>"@, none);
    assert("</actions></toast>"@ + none =~= "</actions></toast>"@);
    lemma_skip_no_text("</actions></toast>"@, none);
    lemma_no_text_in_buttons(actions, "</actions></toast>"@);
    lemma_skip_no_text("<actions>"@, buttons(actions, "</actions></toast>"@));
    let end = toast_end(actions);
    lemma_skip_no_text("</binding></visual>"@, end);
    let rest = "</binding></visual>"@ + end;
    lemma_count_text_line(body, rest);
    let from_body = toast_body(body, actions);
    lemma_count_text_line(summary, from_body);
    let visual = "><visual><binding template=\"ToastGeneric\">"@;
    lemma_skip_no_text(visual, text_line(summary, from_body));
    let head = if urgent {
        "<toast scenario=\"urgent\""@
    } else {
        "<toast"@
    };
    lemma_skip_no_text(head, visual + text_line(summary, from_body));
}

/// How each character is written: five of them by name, and every other one as it is.
pub proof fn lemma_names_of_the_characters(c: char)
    ensures
        escaped(seq!['&']) == "&amp;"@,
        escaped(seq!['<']) == "&lt;"@,
        escaped(seq!['>']) == "&gt;"@,
        escaped(seq!['"']) == "&quot;"@,
        escaped(seq!['\'']) == "&apos;"@,
        c != '&' && c != '<' && c != '>' && c != '"' && c != '\'' ==> escaped(seq![c]) == seq![c],
        escaped(Seq::empty()) == Seq::<char>::empty(),
{
    assert forall|d: char| #[trigger] escaped(seq![d]) == entity(d) by {
        assert(seq![d].drop_last() =~= Seq::<char>::empty());
        assert(seq![d].last() == d);
        assert(escaped(Seq::<char>::empty()) =~= Seq::<char>::empty());
        assert(escaped(seq![d]) =~= Seq::<char>::empty() + entity(d));
    }
}

proof fn lemma_starts_of_the_document()
    ensures
        "<toast scenario=\"urgent\"><visual><binding template=\"ToastGeneric\"><text>"@
            == "<toast scenario=\"urgent\""@ + "><visual><binding template=\"ToastGeneric\">"@
            + "<text>"@,
        "<toast><visual><binding template=\"ToastGeneric\"><text>"@ == "<toast"@
            + "><visual><binding template=\"ToastGeneric\">"@ + "<text>"@,
{
    reveal_strlit("<toast scenario=\"urgent\"><visual><binding template=\"ToastGeneric\"><text>");
    reveal_strlit("<toast><visual><binding template=\"ToastGeneric\"><text>");
    reveal_strlit("<toast scenario=\"urgent\"");
    reveal_strlit("<toast");
    reveal_strlit("><visual><binding template=\"ToastGeneric\">");
    reveal_strlit("<text>");
}

proof fn lemma_ends_of_the_document()
    ensures
        "</binding></visual></toast>"@ == "</binding></visual>"@ + "</toast>"@,
        "</binding></visual><actions><action content=\""@ == "</binding></visual>"@ + "<actions>"@
            + "<action content=\""@,
        "\" activationType=\"foreground\"/></actions></toast>"@
            == "\" activationType=\"foreground\"/>"@ + "</actions></toast>"@,
{
    reveal_strlit("</binding></visual></toast>");
    reveal_strlit("</binding></visual>");
    reveal_strlit("</toast>");
    reveal_strlit("<actions>");
    reveal_strlit("</actions></toast>");
    reveal_strlit("<action content=\"");
    reveal_strlit("\" activationType=\"foreground\"/>");
    reveal_strlit("</binding></visual><actions><action content=\"");
    reveal_strlit("\" activationType=\"foreground\"/></actions></toast>");
}

/// The document of a notification with at most one button, in full: whether it is urgent, its
/// title, its text where it has one, and the button.
pub proof fn lemma_shape_of_the_document(
    summary: &str,
    body: &str,
    actions: &Vec<(String, String)>,
    urgent: bool,
    r: String,
)
    requires
        call_ensures(toast_xml, (summary, body, actions, urgent), r),
    ensures
        ({
            let start = if urgent {
                "<toast scenario=\"urgent\"><visual><binding template=\"ToastGeneric\"><text>"@
            } else {
                "<toast><visual><binding template=\"ToastGeneric\"><text>"@
            };
            let title = escaped(summary@);
            let line = if body@.len() == 0 {
                Seq::empty()
            } else {
                "<text>"@ + escaped(body@) + "</text>"@
            };
            &&& actions@.len() == 0 ==> r@ == start + (title + ("</text>"@ + (line
                + "</binding></visual></toast>"@)))
            &&& actions@.len() == 1 ==> r@ == start + (title + ("</text>"@ + (line + (
            "</binding></visual><actions><action content=\""@ + (escaped(actions@[0].1@) + (
            "\" arguments=\""@ + (escaped(actions@[0].0@)
                + "\" activationType=\"foreground\"/></actions></toast>"@)))))))
        }),
{
    lemma_starts_of_the_document();
    lemma_ends_of_the_document();
    let head = if urgent {
        "<toast scenario=\"urgent\""@
    } else {
        "<toast"@
    };
    let all = actions_view(actions@);
    let rest = toast_body(body@, all);
    lemma_three_pieces(
        head,
        "><visual><binding template=\"ToastGeneric\">"@,
        "<text>"@,
        escaped(summary@) + ("</text>"@ + rest),
    );
    let end = "</binding></visual>"@ + toast_end(all);
    if body@.len() > 0 {
        lemma_three_pieces("<text>"@, escaped(body@), "</text>"@, end);
    } else {
        assert(Seq::<char>::empty() + end =~= end);
    }
    if actions@.len() == 1 {
        assert(all[0] == (actions@[0].0@, actions@[0].1@));
        lemma_one_button(all);
    }
}

proof fn lemma_three_pieces(a: Seq<char>, b: Seq<char>, c: Seq<char>, rest: Seq<char>)
    ensures
        a + (b + (c + rest)) == a + b + c + rest,
{
    assert(a + (b + (c + rest)) =~= a + b + c + rest);
}

proof fn lemma_one_button(all: Seq<(Seq<char>, Seq<char>)>)
    requires
        all.len() == 1,
    ensures
        "</binding></visual>"@ + toast_end(all) == "</binding></visual>"@ + "<actions>"@
            + "<action content=\""@ + (escaped(all[0].1) + ("\" arguments=\""@ + (escaped(all[0].0)
            + ("\" activationType=\"foreground\"/>"@ + "</actions></toast>"@)))),
{
    let last = "</actions></toast>"@;
    let one = "<action content=\""@;
    let two = "\" arguments=\""@;
    let three = "\" activationType=\"foreground\"/>"@;
    let label = escaped(all[0].1);
    let key = escaped(all[0].0);
    assert(all.drop_first() =~= Seq::<(Seq<char>, Seq<char>)>::empty());
    assert(buttons(all.drop_first(), last) == last);
    assert(one + (label + (two + (key + three))) + last =~= one + (label + (two + (key + (three
        + last)))));
    lemma_three_pieces(
        "</binding></visual>"@,
        "<actions>"@,
        one,
        label + (two + (key + (three + last))),
    );
}

/// The buttons come in their order: those of a longer list are those of the shorter one and
/// then the last.
pub proof fn lemma_buttons_in_their_order(
    actions: Seq<(Seq<char>, Seq<char>)>,
    key: Seq<char>,
    label: Seq<char>,
    rest: Seq<char>,
)
    ensures
        buttons(actions.push((key, label)), rest) == buttons(
            actions,
            "<action content=\""@ + (escaped(label) + ("\" arguments=\""@ + (escaped(key)
                + "\" activationType=\"foreground\"/>"@))) + rest,
        ),
    decreases actions.len(),
{
    let all = actions.push((key, label));
    if actions.len() == 0 {
        assert(all.drop_first() =~= actions);
        assert(buttons(all.drop_first(), rest) == rest);
    } else {
        assert(all.drop_first() =~= actions.drop_first().push((key, label)));
        assert(all[0] == actions[0]);
        lemma_buttons_in_their_order(actions.drop_first(), key, label, rest);
    }
}

} // verus!
