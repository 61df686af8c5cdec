use blibs::engine::voebb::parse::form::{parse_form, FACET_CHECKBOX, FOCUS, IDENTITY, SEARCH_TERMS, SOURCE, SOURCE_BUTTON};
use blibs::engine::voebb::session::Session;

const HIDDEN: [&str; 9] = ["identity", "keyCode", "focus", "stz", "source", "selected", "requestCount", "scriptEnabled", "scrollPos"];
const SEARCH: &str = "Suchen";
const ADVANCED_LABEL: &str = "Erweiterte Suche";

/// The entry page of a session: the form with its nine hidden fields, the header search
/// box and the button that opens the advanced form.
const START: &str = r#"<html><body><div id="R04"><form name="Form0" method="post" action="/aDISWeb/_21g4ad7n7gpvxuzq2ryo9pn9w87rqtq7/app">
<input type="hidden" name="identity" value="e1s1">
<input type="hidden" name="keyCode" value="">
<input type="hidden" name="focus" value="">
<input type="hidden" name="stz" value="">
<input type="hidden" name="source" value="">
<input type="hidden" name="selected" value="">
<input type="hidden" name="requestCount" value="1">
<input type="hidden" name="scriptEnabled" value="true">
<input type="hidden" name="scrollPos" value="0">
<input type="text" name="$Autosuggest" value="">
<input type="submit" name="$Button" value="Suchen" data-fld="$$GFBO_1">
<input type="submit" name="$Button$1" value="Erweiterte Suche" data-fld="$$GFBO_3">
</form></div></body></html>"#;

/// A result page: the next identity and counter, and the advanced search offered again.
const RESULTS: &str = r#"<html><body><div id="R06"><form name="Form0" method="post" action="/aDISWeb/_21g4ad7n7gpvxuzq2ryo9pn9w87rqtq7/app">
<input type="hidden" name="identity" value="e1s2">
<input type="hidden" name="keyCode" value="">
<input type="hidden" name="focus" value="">
<input type="hidden" name="stz" value="">
<input type="hidden" name="source" value="">
<input type="hidden" name="selected" value="">
<input type="hidden" name="requestCount" value="2">
<input type="hidden" name="scriptEnabled" value="true">
<input type="hidden" name="scrollPos" value="0">
<input type="submit" name="$Button" value="Suchen" data-fld="$$GFBO_1">
<input type="submit" name="$Button$3" value="Erweiterte Suche" data-fld="$$GFBO_7">
</form></div></body></html>"#;

/// The advanced form: the header search box first, the form's own submit after it.
const ADVANCED: &str = r#"<html><body><div id="R05"><form name="Form0" method="post" action="/aDISWeb/_21g4ad7n7gpvxuzq2ryo9pn9w87rqtq7/app">
<input type="hidden" name="identity" value="e1s3">
<input type="hidden" name="keyCode" value="">
<input type="hidden" name="focus" value="">
<input type="hidden" name="stz" value="">
<input type="hidden" name="source" value="">
<input type="hidden" name="selected" value="">
<input type="hidden" name="requestCount" value="3">
<input type="hidden" name="scriptEnabled" value="true">
<input type="hidden" name="scrollPos" value="0">
<input type="submit" name="$Button" value="Suchen" data-fld="$$GFBO_1">
<input type="text" name="$Autosuggest$0" value="">
<input type="submit" name="$Button$6" value="Suchen" data-fld="$$GFBO_4">
</form></div></body></html>"#;

fn session(html: &str) -> Session {
    match parse_form(html, "test") {
        Ok(form) => Session::from_form(form),
        Err(error) => panic!("the page must parse: {error:?}"),
    }
}

fn value<'a>(fields: &'a [(String, String)], name: &str) -> Option<&'a str> {
    fields.iter().find(|(field, _)| field == name).map(|(_, value)| value.as_str())
}

#[test]
fn a_session_is_the_action_and_the_hidden_fields() {
    let session = session(START);
    assert_eq!(session.action, "/aDISWeb/_21g4ad7n7gpvxuzq2ryo9pn9w87rqtq7/app");
    assert_eq!(session.fields.len(), HIDDEN.len());
    assert_eq!(session.request_count(), Some(1));
}

#[test]
fn the_last_button_of_a_caption_is_the_pages_own() {
    let advanced = session(ADVANCED);
    let header = advanced.button_labelled(SEARCH).expect("every page carries the header search box");
    let own = advanced.last_button_labelled(SEARCH).expect("the advanced form submits itself");
    assert_eq!(header.name, "$Button");
    assert_eq!(own.name, "$Button$6");
    assert_eq!(own.focus, "$$GFBO_4");
}

#[test]
fn one_button_of_a_caption_is_both_the_first_and_the_last() {
    let start = session(START);
    assert_eq!(start.button_labelled(SEARCH), start.last_button_labelled(SEARCH));
}

#[test]
fn a_session_keeps_the_buttons_of_its_page() {
    let start = session(START);
    let results = session(RESULTS);
    let on_start = start.button_labelled(ADVANCED_LABEL).expect("the entry page offers the advanced search");
    let on_results = results.button_labelled(ADVANCED_LABEL).expect("the result page offers the advanced search");
    assert_eq!(on_start.focus, "$$GFBO_3");
    assert_eq!(on_results.focus, "$$GFBO_7");
}

#[test]
fn the_next_form_replays_every_hidden_field() {
    let session = session(START);
    let form = session.form(&[(SEARCH_TERMS, "Der Vorleser")]);
    for name in HIDDEN {
        assert!(value(&form, name).is_some(), "{name} was dropped");
    }
    assert_eq!(value(&form, SEARCH_TERMS), Some("Der Vorleser"));
}

#[test]
fn an_extra_replaces_a_hidden_field_of_the_same_name() {
    let session = session(RESULTS);
    let form = session.form(&[(SOURCE, SOURCE_BUTTON), (FOCUS, "$$GFBO_11")]);
    assert_eq!(form.iter().filter(|(name, _)| name == SOURCE).count(), 1);
    assert_eq!(value(&form, SOURCE), Some(SOURCE_BUTTON));
    assert_eq!(value(&form, FOCUS), Some("$$GFBO_11"));
}

#[test]
fn several_extras_of_one_name_are_all_kept() {
    let session = session(RESULTS);
    let form = session.form(&[(FACET_CHECKBOX, "sub-PTL1_tree_1_90"), (FACET_CHECKBOX, "sub-PTL1_tree_1_92")]);
    let ticked: Vec<&str> = form.iter().filter(|(name, _)| name == FACET_CHECKBOX).map(|(_, value)| value.as_str()).collect();
    assert_eq!(ticked, ["sub-PTL1_tree_1_90", "sub-PTL1_tree_1_92"]);
}

#[test]
fn advancing_replaces_the_whole_state() {
    let mut session = session(START);
    let identity = value(&session.fields, IDENTITY).map(str::to_owned);
    let form = match parse_form(RESULTS, "test") {
        Ok(form) => form,
        Err(error) => panic!("the page must parse: {error:?}"),
    };
    session.advance(form);
    assert_ne!(value(&session.fields, IDENTITY).map(str::to_owned), identity);
    assert_eq!(session.request_count(), Some(2));
}

#[test]
fn the_replaced_fields_come_first_in_order_and_the_extras_after_them() {
    let session = session(START);
    let form = session.form(&[(IDENTITY, "x"), (FACET_CHECKBOX, "a"), (FACET_CHECKBOX, "b")]);
    let names: Vec<&str> = form.iter().map(|(name, _)| name.as_str()).collect();
    assert_eq!(
        names,
        ["keyCode", "focus", "stz", "source", "selected", "requestCount", "scriptEnabled", "scrollPos", "identity", "$CbTree_text", "$CbTree_text"]
    );
    assert_eq!(value(&form, IDENTITY), Some("x"));
}
