use zipease_extract::notify::{blank, escape_xml, failure_toast_xml, success_toast_xml};

#[test]
fn special_characters_are_escaped() {
    assert_eq!(escape_xml(r#"a&b<c>"d"'e'"#), "a&amp;b&lt;c&gt;&quot;d&quot;&apos;e&apos;");
    assert_eq!(escape_xml("plain"), "plain");
}

#[test]
fn success_toast_text() {
    let xml = success_toast_xml("a&b.zip", "C:\\Out", 12);
    assert_eq!(
        xml,
        "<toast><visual><binding template=\"ToastGeneric\"><text>Extraction complete</text><text>Extracted 12 files from a&amp;b.zip</text></binding></visual><actions><action content=\"Open Folder\" activationType=\"protocol\" arguments=\"explorer.exe C:\\Out\"/></actions></toast>"
    );
    assert!(success_toast_xml("a", "b", -3).contains("Extracted -3 files"));
}

#[test]
fn failure_toast_uses_fallback_for_blank_messages() {
    let xml = failure_toast_xml("x.rar", " \t ");
    assert!(xml.contains("Couldn\u{2019}t extract x.rar \u{2014} Something went wrong \u{2014} please try again"));
    let xml = failure_toast_xml("x.rar", "<bad>");
    assert_eq!(
        xml,
        "<toast><visual><binding template=\"ToastGeneric\"><text>Extraction failed</text><text>Couldn\u{2019}t extract x.rar \u{2014} &lt;bad&gt;</text></binding></visual></toast>"
    );
    assert!(blank("\u{3000}\n"));
    assert!(!blank(" x "));
}
