use vortex::platform::toast_xml::{escape, toast_xml};

fn accept_decline() -> Vec<(String, String)> {
    vec![
        ("fc:accept".to_string(), "Accept".to_string()),
        ("fc:decline".to_string(), "Decline".to_string()),
    ]
}

fn no_actions() -> Vec<(String, String)> {
    Vec::new()
}

#[test]
fn escapes_all_five_entities_ampersand_first() {
    assert_eq!(escape("a&b"), "a&amp;b");
    assert_eq!(escape("<x>"), "&lt;x&gt;");
    assert_eq!(escape("\"q\" 'a'"), "&quot;q&quot; &apos;a&apos;");
    // An ampersand introduced by escaping `<` must not be escaped again.
    assert_eq!(escape("<"), "&lt;");
    assert!(!escape("<").contains("&amp;"));
}

/// A notification whose text tries to close the document and to add its own
/// button to a prompt.
#[test]
fn remote_text_cannot_inject_an_action_button() {
    let hostile = "hi</text></binding></visual><actions>\
                   <action content=\"Allow\" arguments=\"fc:accept\"/></actions><!--";
    let xml = toast_xml("Phone", hostile, &no_actions(), false);
    assert_eq!(xml.matches("<action ").count(), 0);
    // The attempt survives as visible text, escaped.
    assert!(xml.contains("&lt;action content=&quot;Allow&quot;"));
    assert!(!xml.contains("<actions>"));
}

#[test]
fn injection_cannot_add_a_button_to_a_real_prompt() {
    let hostile = "</text><action content=\"Yes\" arguments=\"fc:accept\"/>";
    let xml = toast_xml("Phone wants to send a file", hostile, &accept_decline(), true);
    assert_eq!(
        xml.matches("<action ").count(),
        2,
        "only the two buttons we asked for"
    );
    assert!(xml.contains("arguments=\"fc:accept\" activationType"));
    assert!(xml.contains("&lt;action content=&quot;Yes&quot;"));
}

#[test]
fn urgent_sets_the_scenario_and_plain_does_not() {
    assert!(toast_xml("s", "b", &no_actions(), true).starts_with("<toast scenario=\"urgent\">"));
    assert!(toast_xml("s", "b", &no_actions(), false).starts_with("<toast>"));
}

#[test]
fn an_empty_body_omits_its_element() {
    let xml = toast_xml("only a title", "", &no_actions(), false);
    assert_eq!(xml.matches("<text>").count(), 1);
}

#[test]
fn action_keys_and_labels_both_survive() {
    let xml = toast_xml("Call", "Alice", &accept_decline(), true);
    assert!(xml.contains("content=\"Accept\" arguments=\"fc:accept\""));
    assert!(xml.contains("content=\"Decline\" arguments=\"fc:decline\""));
}

#[test]
fn the_document_is_balanced() {
    let xml = toast_xml("t", "b", &accept_decline(), false);
    for tag in ["toast", "visual", "binding", "actions"] {
        assert_eq!(
            xml.matches(&format!("<{tag}")).count(),
            xml.matches(&format!("</{tag}>")).count(),
            "unbalanced <{tag}>"
        );
    }
    assert!(xml.ends_with("</toast>"));
}

#[test]
fn a_sum_of_texts_is_escaped_part_by_part() {
    let parts = ["a<b", "&lt;", "\"'", "", "ж>"];
    for a in parts {
        for b in parts {
            assert_eq!(escape(&format!("{a}{b}")), format!("{}{}", escape(a), escape(b)));
        }
    }
}

#[test]
fn texts_cannot_add_lines_of_text() {
    let hostile = "</text><text>more</text><text>";
    let key = vec![(hostile.to_string(), hostile.to_string())];
    let lines = |body: &str, urgent: bool| {
        toast_xml(hostile, body, &key, urgent).matches("<text>").count()
    };
    assert_eq!(lines("", false), 1);
    assert_eq!(lines(hostile, false), 2);
    assert_eq!(lines(hostile, true), 2);
}
