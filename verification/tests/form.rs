use blibs::engine::voebb::parse::form::{parse_form, FormState, FOCUS, IDENTITY, SOURCE};

const HIDDEN: [&str; 9] = ["identity", "keyCode", "focus", "stz", "source", "selected", "requestCount", "scriptEnabled", "scrollPos"];

/// The entry page: the session id in the action path, the nine hidden fields, and the
/// buttons of the search area.
const START: &str = r#"<html><body><div id="R04"><form name="Form0" method="post" action="/aDISWeb/_21g4ad7n7gpvxuzq2ryo9pn9w87rqtq7/app">
<input type="hidden" name="identity" value="5faUoXJ8MCxJfwi-">
<input type="hidden" name="keyCode" value="">
<input type="hidden" name="focus" value="">
<input type="hidden" name="stz" value="">
<input type="hidden" name="source" value="">
<input type="hidden" name="selected" value="">
<input type="hidden" name="requestCount" value="1">
<input type="hidden" name="scriptEnabled" value="true">
<input type="hidden" name="scrollPos" value="0">
<input type="text" name="$Autosuggest" value="">
<input type="submit" name="$Button" value="Suchen" data-fld="$$GFBO_1">
<input type="submit" name="$Button$0" value="Erweiterte Suche" data-fld="$$GFBO_3">
</form></div></body></html>"#;

/// A result page: the next identity and counter, the advanced search again, the facet's
/// filter and the sort buttons.
const RESULTS: &str = r#"<html><body><div id="R06"><form name="Form0" method="post" action="/aDISWeb/_21g4ad7n7gpvxuzq2ryo9pn9w87rqtq7/app">
<input type="hidden" name="identity" value="Qm2sZx81KpLw0e7a">
<input type="hidden" name="keyCode" value="">
<input type="hidden" name="focus" value="">
<input type="hidden" name="stz" value="">
<input type="hidden" name="source" value="">
<input type="hidden" name="selected" value="">
<input type="hidden" name="requestCount" value="2">
<input type="hidden" name="scriptEnabled" value="true">
<input type="hidden" name="scrollPos" value="0">
<input type="submit" name="$Button" value="Suchen" data-fld="$$GFBO_1">
<input type="submit" name="$Button$0" value="Erweiterte Suche" data-fld="$$GFBO_7">
<input type="submit" name="$Button$2" value="Filtern" data-fld="$$GFBO_11">
<input type="submit" name="$Button$6" value="Verfasser" data-fld="$$GFBO_15">
</form></div></body></html>"#;

/// The advanced form, whose own submit is `$Button$6`.
const ADVANCED: &str = r#"<html><body><div id="R05"><form name="Form0" method="post" action="/aDISWeb/_21g4ad7n7gpvxuzq2ryo9pn9w87rqtq7/app">
<input type="hidden" name="identity" value="Zt4rXq9LmB2cVw6y">
<input type="hidden" name="keyCode" value="">
<input type="hidden" name="focus" value="">
<input type="hidden" name="stz" value="">
<input type="hidden" name="source" value="">
<input type="hidden" name="selected" value="">
<input type="hidden" name="requestCount" value="3">
<input type="hidden" name="scriptEnabled" value="true">
<input type="hidden" name="scrollPos" value="0">
<input type="submit" name="$Button" value="Suchen" data-fld="$$GFBO_1">
<input type="submit" name="$Button$6" value="Suchen" data-fld="$$GFBO_4">
</form></div></body></html>"#;

fn parsed(html: &str) -> FormState {
    match parse_form(html, "test") {
        Ok(state) => state,
        Err(error) => panic!("the page must parse: {}", error.message()),
    }
}

#[test]
fn reads_the_entry_form() {
    let form = parsed(START);
    assert_eq!(form.action, "/aDISWeb/_21g4ad7n7gpvxuzq2ryo9pn9w87rqtq7/app");
    assert_eq!(form.get(IDENTITY), Some("5faUoXJ8MCxJfwi-"));
    assert_eq!(form.request_count(), Some(1));
}

#[test]
fn keeps_the_nine_hidden_fields_in_document_order() {
    let form = parsed(START);
    let names: Vec<&str> = form.fields.iter().map(|(name, _)| name.as_str()).filter(|name| HIDDEN.contains(name)).collect();
    assert_eq!(names, HIDDEN.to_vec());
}

#[test]
fn empty_fields_are_present_and_empty() {
    let form = parsed(START);
    for name in [FOCUS, "stz", SOURCE, "selected"] {
        assert_eq!(form.get(name), Some(""), "{name}");
    }
}

#[test]
fn identity_and_request_count_advance_with_the_session() {
    let start = parsed(START);
    let results = parsed(RESULTS);
    assert_ne!(start.get(IDENTITY), results.get(IDENTITY));
    assert_eq!(results.request_count(), Some(2));
}

#[test]
fn button_focus_is_read_from_the_page() {
    let start = parsed(START);
    let results = parsed(RESULTS);
    let on_start = start.button_labelled("Erweiterte Suche").expect("the entry page offers the advanced search");
    let on_results = results.button_labelled("Erweiterte Suche").expect("the result page offers the advanced search");
    assert_eq!(on_start.focus, "$$GFBO_3");
    assert_eq!(on_results.focus, "$$GFBO_7");
    assert_eq!(on_start.name, on_results.name, "both are $Button$0");
}

#[test]
fn the_same_button_name_means_different_things_per_page() {
    let advanced = parsed(ADVANCED);
    let results = parsed(RESULTS);
    assert_eq!(advanced.button("$Button$6").map(|b| b.label.as_str()), Some("Suchen"));
    assert_eq!(results.button("$Button$6").map(|b| b.label.as_str()), Some("Verfasser"));
}

#[test]
fn finds_the_filter_button_on_the_result_page() {
    let results = parsed(RESULTS);
    let filter = results.button_labelled("Filtern").expect("a result page offers the facet filter");
    assert_eq!(filter.name, "$Button$2");
    assert_eq!(filter.focus, "$$GFBO_11");
}

#[test]
fn a_missing_hidden_field_names_itself() {
    let broken = START.replace("name=\"identity\"", "name=\"identityX\"");
    let error = parse_form(&broken, "the entry page").err().expect("must not be accepted");
    let message = error.message();
    assert!(message.contains("identity"), "{message}");
    assert!(message.contains("the entry page"), "{message}");
}

#[test]
fn a_missing_form_names_the_form_selector() {
    let error = parse_form("<html><body>nothing</body></html>", "the entry page").err().expect("must not be accepted");
    let message = error.message();
    assert!(message.contains("Form0"), "{message}");
}
