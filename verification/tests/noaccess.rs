use blibs::engine::voebb::parse::noaccess::check;

/// The session-lost page: status 200, no form, no title, and the sentence.
const NOACCESS: &str = r#"<html><head></head><body><div class="box"><p>Bitte schließen Sie diesen Reiter.</p>
<p>Please close this tab.</p><p>Aus Sicherheitsgründen ist das nicht erlaubt.</p></div></body></html>"#;

/// A result page: a title, the form, the list.
const RESULTS: &str = r#"<!DOCTYPE html><html><head><title>Trefferliste</title></head><body>
<form name="Form0" action="/aDISWeb/app;jsessionid=1?service=direct"><input type="hidden" name="identity" value="x"></form>
<h1>Trefferliste</h1><ul><li>Der Vorleser</li></ul></body></html>"#;

/// The entry page: a title and the form.
const START: &str = r#"<!DOCTYPE html><html><head><title>VÖBB</title></head><body><div id="R04">
<form name="Form0" action="/aDISWeb/app;jsessionid=2?service=direct"><input type="hidden" name="identity" value="y"></form>
</div></body></html>"#;

#[test]
fn rejects_the_noaccess_page() {
    let error = check(NOACCESS, "the branch filter").expect_err("must be rejected");
    let message = error.message();
    assert!(message.contains("the branch filter"), "{message}");
    assert!(message.contains("session"), "{message}");
}

#[test]
fn the_noaccess_page_is_a_named_error() {
    let error = check(NOACCESS, "the search").expect_err("must be rejected");
    assert_eq!(error.kind(), "voebb_session_lost");
}

#[test]
fn accepts_real_pages() {
    assert!(check(RESULTS, "the search").is_ok());
    assert!(check(START, "the entry page").is_ok());
}

#[test]
fn a_page_with_a_form_is_never_the_failure_page() {
    let html = RESULTS.replace("Trefferliste", "Bitte schließen Sie diesen Reiter");
    assert!(check(&html, "the search").is_ok());
}

#[test]
fn a_page_without_a_form_and_without_a_title_is_the_failure_page_even_without_the_sentence() {
    let html = "<html><body><p>Sitzung beendet</p></body></html>";
    assert!(check(html, "the record page").is_err());
}

#[test]
fn a_titled_page_without_the_sentence_is_not_the_failure_page_even_without_a_form() {
    let html = "<html><head><title>Irgendwas</title></head><body><p>kein Formular</p></body></html>";
    assert!(check(html, "the record page").is_ok());
}
