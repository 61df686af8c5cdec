use blibs::engine::kobv::parse::sru::{check, diagnostic_code, parse, record_notes, RecordPayload, SruResponse};
use blibs::error::ExitCode;

fn parsed(body: &str) -> SruResponse {
    match parse(body) {
        Ok(response) => response,
        Err(error) => panic!("body must parse: {}", error.message()),
    }
}

#[test]
fn diagnostic_one_two_becomes_the_too_long_variant() {
    let body = r#"<?xml version="1.0"?>
<zs:searchRetrieveResponse xmlns:zs="http://docs.oasis-open.org/ns/search-ws/sruResponse">
  <zs:diagnostics xmlns:diag="http://docs.oasis-open.org/ns/search-ws/diagnostic">
    <diag:diagnostic>
      <diag:uri>info:srw/diagnostic/1/2</diag:uri>
      <diag:message>System temporarily unavailable</diag:message>
    </diag:diagnostic>
  </zs:diagnostics>
</zs:searchRetrieveResponse>"#;
    let response = parsed(body);
    let error = check(&response).expect_err("1/2 is a rejection");
    assert_eq!(error.kind(), "query_too_long_upstream");
}

#[test]
fn records_and_a_top_level_diagnostic_can_arrive_together() {
    let body = r#"<?xml version="1.0"?>
<zs:searchRetrieveResponse xmlns:zs="http://docs.oasis-open.org/ns/search-ws/sruResponse">
  <zs:numberOfRecords>7</zs:numberOfRecords>
  <zs:records>
    <zs:record>
      <zs:recordSchema>marcxml</zs:recordSchema>
      <zs:recordData><record xmlns="http://www.loc.gov/MARC21/slim"><leader>x</leader></record></zs:recordData>
      <zs:recordPosition>1</zs:recordPosition>
    </zs:record>
  </zs:records>
  <zs:diagnostics xmlns:diag="http://docs.oasis-open.org/ns/search-ws/diagnostic">
    <diag:diagnostic>
      <diag:uri>info:srw/diagnostic/1/80</diag:uri>
      <diag:message>Sort not supported</diag:message>
    </diag:diagnostic>
  </zs:diagnostics>
</zs:searchRetrieveResponse>"#;
    let response = parsed(body);
    assert_eq!(response.number_of_records, 7);
    assert_eq!(response.records.len(), 1);
    assert_eq!(response.diagnostics.len(), 1);
    assert!(check(&response).is_err());
}

#[test]
fn an_unknown_record_schema_becomes_a_note() {
    let body = r#"<?xml version="1.0"?>
<zs:searchRetrieveResponse xmlns:zs="http://docs.oasis-open.org/ns/search-ws/sruResponse">
  <zs:numberOfRecords>1</zs:numberOfRecords>
  <zs:records>
    <zs:record>
      <zs:recordSchema>dc</zs:recordSchema>
      <zs:recordData><dc/></zs:recordData>
      <zs:recordPosition>3</zs:recordPosition>
    </zs:record>
  </zs:records>
</zs:searchRetrieveResponse>"#;
    let response = parsed(body);
    assert_eq!(response.records[0].payload, RecordPayload::Unknown { schema: "dc".to_string() });
    let notes = record_notes(&response);
    assert_eq!(notes.len(), 1);
    assert_eq!(notes[0].kind, "record_schema_unknown");
    assert!(notes[0].message.contains("position 3"));
}

#[test]
fn a_body_that_is_not_xml_at_all_fails_as_not_xml() {
    let error = parse("upstream connect error").expect_err("plain text is not XML");
    assert_eq!(error.kind(), "not_xml");
}

#[test]
fn an_html_page_is_not_an_sru_document() {
    let error = parse("<html><body>Bad gateway</body></html>").expect_err("an HTML page is not an SRU response");
    assert_eq!(error.exit(), ExitCode::Unexpected);
    assert_eq!(error.kind(), "not_xml");
    assert!(error.message().contains("<html>"), "{}", error.message());
}

#[test]
fn a_missing_count_without_a_diagnostic_names_the_element() {
    let body = r#"<?xml version="1.0"?>
<zs:searchRetrieveResponse xmlns:zs="http://docs.oasis-open.org/ns/search-ws/sruResponse">
  <zs:records/>
</zs:searchRetrieveResponse>"#;
    let error = parse(body).expect_err("no count and no diagnostic is a broken envelope");
    assert_eq!(error.kind(), "missing_structure");
    assert!(error.message().contains("numberOfRecords"));
}

#[test]
fn a_non_numeric_count_names_what_arrived() {
    let body = r#"<?xml version="1.0"?>
<zs:searchRetrieveResponse xmlns:zs="http://docs.oasis-open.org/ns/search-ws/sruResponse">
  <zs:numberOfRecords>many</zs:numberOfRecords>
</zs:searchRetrieveResponse>"#;
    let error = parse(body).expect_err("a non-numeric count is a broken envelope");
    assert_eq!(error.kind(), "missing_structure");
    assert!(error.message().contains("many"));
}

#[test]
fn a_declared_marc_record_without_a_payload_is_an_error() {
    let body = r#"<?xml version="1.0"?>
<zs:searchRetrieveResponse xmlns:zs="http://docs.oasis-open.org/ns/search-ws/sruResponse">
  <zs:numberOfRecords>1</zs:numberOfRecords>
  <zs:records>
    <zs:record>
      <zs:recordSchema>marcxml</zs:recordSchema>
      <zs:recordData></zs:recordData>
      <zs:recordPosition>1</zs:recordPosition>
    </zs:record>
  </zs:records>
</zs:searchRetrieveResponse>"#;
    let error = parse(body).expect_err("a declared payload that is absent is an error");
    assert_eq!(error.kind(), "missing_structure");
    assert!(error.message().contains("position 1"));
}

#[test]
fn elements_are_matched_by_namespace_not_by_prefix() {
    let body = r#"<?xml version="1.0"?>
<x:searchRetrieveResponse xmlns:x="http://docs.oasis-open.org/ns/search-ws/sruResponse">
  <x:numberOfRecords>2</x:numberOfRecords>
  <x:nextRecordPosition>3</x:nextRecordPosition>
</x:searchRetrieveResponse>"#;
    let response = parsed(body);
    assert_eq!(response.number_of_records, 2);
    assert_eq!(response.next_record_position, Some(3));
}

#[test]
fn the_diagnostic_code_is_the_tail_of_the_uri() {
    assert_eq!(diagnostic_code("info:srw/diagnostic/1/2"), "1/2");
    assert_eq!(diagnostic_code("1/2"), "1/2");
}

#[test]
fn a_marc_payload_is_the_raw_element_and_a_surrogate_diagnostic_is_a_note() {
    let body = r#"<?xml version="1.0"?>
<zs:searchRetrieveResponse xmlns:zs="http://docs.oasis-open.org/ns/search-ws/sruResponse">
  <zs:numberOfRecords>13946</zs:numberOfRecords>
  <zs:records>
    <zs:record>
      <zs:recordSchema>marcxml</zs:recordSchema>
      <!-- a comment between children -->
      <zs:recordData><record xmlns="http://www.loc.gov/MARC21/slim"><controlfield tag="001">kobvindex_SLB42822</controlfield></record></zs:recordData>
      <zs:recordPosition>48</zs:recordPosition>
    </zs:record>
    <zs:record>
      <zs:recordSchema>info:srw/schema/1/diagnostics-v1.1</zs:recordSchema>
      <zs:recordData><diagnostic xmlns="http://www.loc.gov/zing/srw/diagnostic/"><uri>info:srw/diagnostic/1/63</uri><message>System error in retrieving records</message><details>xmlParseMemory failed</details></diagnostic></zs:recordData>
      <zs:recordPosition>49</zs:recordPosition>
    </zs:record>
  </zs:records>
  <zs:nextRecordPosition>51</zs:nextRecordPosition>
</zs:searchRetrieveResponse>"#;
    let response = parsed(body);
    assert_eq!(response.number_of_records, 13946);
    assert_eq!(response.next_record_position, Some(51));
    let positions: Vec<_> = response.records.iter().map(|r| r.position).collect();
    assert_eq!(positions, vec![Some(48), Some(49)]);
    match &response.records[0].payload {
        RecordPayload::Marc(xml) => {
            assert!(xml.starts_with("<record "));
            assert!(xml.ends_with("</record>"));
            assert!(xml.contains("kobvindex_SLB42822"));
        }
        other => panic!("expected MARC, got {other:?}"),
    }
    assert!(check(&response).is_ok());
    let notes = record_notes(&response);
    assert_eq!(notes.len(), 1);
    assert_eq!(notes[0].kind, "record_undelivered");
    assert!(notes[0].message.contains("position 49"));
    assert!(notes[0].message.contains("1/63"));
}

#[test]
fn a_rejection_carries_the_services_words() {
    let body = r#"<?xml version="1.0"?>
<zs:searchRetrieveResponse xmlns:zs="http://docs.oasis-open.org/ns/search-ws/sruResponse">
  <zs:diagnostics xmlns:diag="http://docs.oasis-open.org/ns/search-ws/diagnostic">
    <diag:diagnostic>
      <diag:uri>info:srw/diagnostic/1/16</diag:uri>
      <diag:message>Unsupported index</diag:message>
      <diag:details>nonexistentindex</diag:details>
    </diag:diagnostic>
  </zs:diagnostics>
</zs:searchRetrieveResponse>"#;
    let response = parsed(body);
    assert_eq!(response.number_of_records, 0);
    assert_eq!(response.diagnostics[0].details.as_deref(), Some("nonexistentindex"));
    let error = check(&response).expect_err("a top-level diagnostic is a rejection");
    assert_eq!(error.exit(), ExitCode::Rejected);
    assert_eq!(error.kind(), "query_rejected");
    assert!(error.message().contains("Unsupported index"));
}

/// The envelope of a search response, with the records and the trailing elements given.
fn envelope_body(count: &str, records: &str, tail: &str) -> String {
    format!(
        r#"<?xml version="1.0"?>
<zs:searchRetrieveResponse xmlns:zs="http://docs.oasis-open.org/ns/search-ws/sruResponse">
  {count}
  <zs:records>{records}</zs:records>
  {tail}
</zs:searchRetrieveResponse>"#
    )
}

/// One MARC record slot at a position, its `001` given.
fn marc_slot(position: u32, id: &str) -> String {
    format!(
        r#"<zs:record>
      <zs:recordSchema>marcxml</zs:recordSchema>
      <zs:recordData><record xmlns="http://www.loc.gov/MARC21/slim"><controlfield tag="001">{id}</controlfield><datafield tag="245" ind1="1" ind2="0"><subfield code="a">Titel</subfield></datafield></record></zs:recordData>
      <zs:recordPosition>{position}</zs:recordPosition>
    </zs:record>"#
    )
}

fn marc_payloads(response: &SruResponse) -> Vec<&str> {
    response
        .records
        .iter()
        .filter_map(|record| match &record.payload {
            RecordPayload::Marc(xml) => Some(xml.as_str()),
            _ => None,
        })
        .collect()
}

#[test]
fn the_envelope_count_is_independent_of_the_delivered_records() {
    let records = format!("{}{}", marc_slot(12, "almafu_BV001"), marc_slot(44, "almafu_BV002"));
    let body = envelope_body(
        "<zs:numberOfRecords>304</zs:numberOfRecords>",
        &records,
        "<zs:nextRecordPosition>51</zs:nextRecordPosition>",
    );
    let response = parsed(&body);
    assert_eq!(response.number_of_records, 304);
    assert_eq!(response.records.len(), 2);
    assert_eq!(response.next_record_position, Some(51));
    assert_eq!(response.records.iter().map(|record| record.position).collect::<Vec<_>>(), vec![Some(12), Some(44)]);
    assert_eq!(marc_payloads(&response).len(), 2);
    assert!(response.diagnostics.is_empty());
    assert!(record_notes(&response).is_empty());
    assert!(check(&response).is_ok());
}

#[test]
fn zero_hits_is_an_ordinary_response() {
    let response = parsed(&envelope_body("<zs:numberOfRecords>0</zs:numberOfRecords>", "", ""));
    assert_eq!(response.number_of_records, 0);
    assert!(response.records.is_empty());
    assert!(response.diagnostics.is_empty());
    assert_eq!(response.next_record_position, None);
    assert!(check(&response).is_ok());
}

#[test]
fn an_unknown_record_id_is_empty_and_not_an_error() {
    let response = parsed(&envelope_body("<zs:numberOfRecords>0</zs:numberOfRecords>", "", ""));
    assert_eq!(response.number_of_records, 0);
    assert!(response.records.is_empty());
    assert!(check(&response).is_ok());
}

#[test]
fn a_count_only_response_has_a_total_and_no_records() {
    let body = r#"<?xml version="1.0"?>
<zs:searchRetrieveResponse xmlns:zs="http://docs.oasis-open.org/ns/search-ws/sruResponse">
  <zs:numberOfRecords>3718</zs:numberOfRecords>
</zs:searchRetrieveResponse>"#;
    let response = parsed(body);
    assert_eq!(response.number_of_records, 3718);
    assert!(response.records.is_empty());
    assert!(check(&response).is_ok());
}

#[test]
fn a_rejection_parses_and_check_turns_it_into_exit_five() {
    let body = r#"<?xml version="1.0"?>
<zs:searchRetrieveResponse xmlns:zs="http://docs.oasis-open.org/ns/search-ws/sruResponse">
  <zs:diagnostics xmlns:diag="http://docs.oasis-open.org/ns/search-ws/diagnostic">
    <diag:diagnostic>
      <diag:uri>info:srw/diagnostic/1/16</diag:uri>
      <diag:message>Unsupported index</diag:message>
      <diag:details>nonexistentindex</diag:details>
    </diag:diagnostic>
  </zs:diagnostics>
</zs:searchRetrieveResponse>"#;
    let response = parsed(body);
    assert_eq!(response.number_of_records, 0);
    assert!(response.records.is_empty());
    assert_eq!(response.diagnostics.len(), 1);
    assert_eq!(response.diagnostics[0].uri, "info:srw/diagnostic/1/16");
    assert_eq!(response.diagnostics[0].message.as_deref(), Some("Unsupported index"));
    assert_eq!(response.diagnostics[0].details.as_deref(), Some("nonexistentindex"));
    let error = check(&response).expect_err("a top-level diagnostic is a rejection");
    assert_eq!(error.exit(), ExitCode::Rejected);
    assert_eq!(error.kind(), "query_rejected");
    assert!(error.message().contains("Unsupported index"));
}

#[test]
fn the_truncation_diagnostic_is_a_rejection() {
    let body = r#"<?xml version="1.0"?>
<zs:searchRetrieveResponse xmlns:zs="http://docs.oasis-open.org/ns/search-ws/sruResponse">
  <zs:diagnostics xmlns:diag="http://docs.oasis-open.org/ns/search-ws/diagnostic">
    <diag:diagnostic>
      <diag:uri>info:srw/diagnostic/1/48</diag:uri>
      <diag:message>Query feature unsupported</diag:message>
    </diag:diagnostic>
  </zs:diagnostics>
</zs:searchRetrieveResponse>"#;
    let response = parsed(body);
    assert_eq!(response.diagnostics.len(), 1);
    assert_eq!(response.diagnostics[0].uri, "info:srw/diagnostic/1/48");
    let error = check(&response).expect_err("1/48 is a rejection");
    assert_eq!(error.exit(), ExitCode::Rejected);
}

#[test]
fn a_surrogate_diagnostic_costs_one_record_and_one_note() {
    let surrogate = r#"<zs:record>
      <zs:recordSchema>info:srw/schema/1/diagnostics-v1.1</zs:recordSchema>
      <zs:recordData><diagnostic xmlns="http://www.loc.gov/zing/srw/diagnostic/"><uri>info:srw/diagnostic/1/63</uri><message>System error in retrieving records</message><details>xmlParseMemory failed</details></diagnostic></zs:recordData>
      <zs:recordPosition>49</zs:recordPosition>
    </zs:record>"#;
    let records = format!("{}{}{}", marc_slot(48, "almafu_BV048"), surrogate, marc_slot(50, "almafu_BV050"));
    let body = envelope_body(
        "<zs:numberOfRecords>13946</zs:numberOfRecords>",
        &records,
        "<zs:nextRecordPosition>51</zs:nextRecordPosition>",
    );
    let response = parsed(&body);
    assert_eq!(response.number_of_records, 13946);
    assert_eq!(response.records.len(), 3);
    assert_eq!(response.next_record_position, Some(51));
    let positions: Vec<_> = response.records.iter().map(|record| record.position).collect();
    assert_eq!(positions, vec![Some(48), Some(49), Some(50)]);
    match &response.records[1].payload {
        RecordPayload::Diagnostic(diagnostic) => {
            assert_eq!(diagnostic.uri, "info:srw/diagnostic/1/63");
            assert_eq!(diagnostic.message.as_deref(), Some("System error in retrieving records"));
            assert_eq!(diagnostic.details.as_deref(), Some("xmlParseMemory failed"));
        }
        other => panic!("position 49 must be a surrogate diagnostic, got {other:?}"),
    }
    assert_eq!(marc_payloads(&response).len(), 2);
    assert!(check(&response).is_ok());
    let notes = record_notes(&response);
    assert_eq!(notes.len(), 1);
    assert_eq!(notes[0].kind, "record_undelivered");
    assert!(notes[0].message.contains("position 49"));
    assert!(notes[0].message.contains("1/63"));
}

#[test]
fn comments_inside_a_record_do_not_disturb_the_envelope() {
    let newspaper = r#"<zs:record>
      <!-- schema follows -->
      <zs:recordSchema>marcxml</zs:recordSchema>
      <!-- data follows -->
      <zs:recordData><record xmlns="http://www.loc.gov/MARC21/slim"><!-- control fields --><controlfield tag="001">kobvindex_SLB42822</controlfield></record></zs:recordData>
      <zs:recordPosition>1</zs:recordPosition>
    </zs:record>"#;
    let body = envelope_body("<zs:numberOfRecords>3144</zs:numberOfRecords>", newspaper, "");
    assert!(body.contains("<!--"), "the body must carry comments");
    let response = parsed(&body);
    assert_eq!(response.number_of_records, 3144);
    assert_eq!(response.records.len(), 1);
    let payloads = marc_payloads(&response);
    let xml = payloads.first().expect("the record must carry MARCXML");
    assert!(xml.contains("<!--"), "comments stay in the raw payload");
    assert!(xml.contains("kobvindex_SLB42822"));
}

#[test]
fn an_html_error_page_is_not_an_sru_document() {
    let page = "<html><head><title>502 Bad Gateway</title></head><body><h1>Bad Gateway</h1></body></html>";
    let error = parse(page).expect_err("an HTML page is not an SRU response");
    assert_eq!(error.exit(), ExitCode::Unexpected);
    assert_eq!(error.kind(), "not_xml");
    assert!(error.message().contains("<html>"));
}
