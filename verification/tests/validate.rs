use blibs::cli::validate::{split_by_engine, validate, validate_libraries, validate_show, MAX_POSITION};
use blibs::cli::{LibrariesArgs, LibrariesPlan, Plan, SearchArgs, ShowArgs};
use blibs::error::{Error, ExitCode};
use blibs::libraries::Entry;
use blibs::model::{AvailabilityMode, Engine, Format, Identifier, Limit, Page, SortKey, Term, MAX_SRU_PAGE_SIZE};
use blibs::select::Filters;

const MAX_QUERY_CHARS: usize = 1000;

/// The parsed command line, in the shape the argument parser hands over.
enum Parsed {
    Search(SearchArgs),
    Show(ShowArgs),
    Libraries(LibrariesArgs),
}

/// A small stand-in for the argument parser: subcommand, global flags anywhere, `--at`
/// split at commas, everything else a free term.
fn parse(args: &[&str]) -> (Parsed, bool, bool) {
    let mut json = false;
    let mut cache = true;
    let mut rest: Vec<&str> = Vec::new();
    for arg in args {
        match *arg {
            "--json" => json = true,
            "--no-cache" => cache = false,
            other => rest.push(other),
        }
    }
    let command = rest[0];
    let mut i = 1;
    let mut next = |i: &mut usize| {
        *i += 1;
        rest[*i - 1].to_string()
    };
    match command {
        "search" => {
            let mut s = SearchArgs::default();
            while i < rest.len() {
                let arg = rest[i];
                i += 1;
                match arg {
                    "--title" => s.title = Some(next(&mut i)),
                    "--author" => s.author = Some(next(&mut i)),
                    "--subject" => s.subject = Some(next(&mut i)),
                    "--publisher" => s.publisher = Some(next(&mut i)),
                    "--year" => s.year = Some(next(&mut i)),
                    "--isbn" => s.isbn = Some(next(&mut i)),
                    "--at" => s.at.extend(next(&mut i).split(',').map(str::to_string)),
                    "--limit" => s.limit = Some(next(&mut i).parse().unwrap()),
                    "--page" => s.page = Some(next(&mut i).parse().unwrap()),
                    "--sort" => s.sort = Some(next(&mut i)),
                    "--format" => s.format = Some(next(&mut i)),
                    "--language" => s.language = Some(next(&mut i)),
                    "--available" => s.available = true,
                    "--no-availability" => s.no_availability = true,
                    term => s.terms.push(term.to_string()),
                }
            }
            (Parsed::Search(s), json, cache)
        }
        "show" => {
            let mut s = ShowArgs::default();
            while i < rest.len() {
                let arg = rest[i];
                i += 1;
                match arg {
                    "--at" => s.at.extend(next(&mut i).split(',').map(str::to_string)),
                    "--no-availability" => s.no_availability = true,
                    id => s.id = id.to_string(),
                }
            }
            (Parsed::Show(s), json, cache)
        }
        "libraries" => {
            let mut s = LibrariesArgs::default();
            while i < rest.len() {
                let arg = rest[i];
                i += 1;
                match arg {
                    "--find" => s.find = Some(next(&mut i)),
                    "--near" => s.near = Some(next(&mut i)),
                    "--branches" => s.branches = true,
                    key => s.key = Some(key.to_string()),
                }
            }
            (Parsed::Libraries(s), json, cache)
        }
        other => panic!("unknown subcommand {other}"),
    }
}

fn search(args: &[&str]) -> Result<Plan, Error> {
    match parse(args) {
        (Parsed::Search(s), json, cache) => validate(&s, json, cache),
        _ => panic!("expected a search"),
    }
}

fn usage_kind(args: &[&str]) -> &'static str {
    match search(args) {
        Ok(plan) => panic!("expected a usage error, got {plan:?}"),
        Err(error) => {
            assert_eq!(error.exit(), ExitCode::Usage, "{}", error.message());
            error.kind()
        }
    }
}

fn libraries_plan(args: &[&str]) -> Result<LibrariesPlan, Error> {
    match parse(args) {
        (Parsed::Libraries(s), json, _) => validate_libraries(&s, json),
        _ => panic!("expected libraries"),
    }
}

#[test]
fn wildcards_are_refused_in_terms_and_in_flags() {
    assert_eq!(usage_kind(&["search", "Proze*"]), "wildcard_unsupported");
    assert_eq!(usage_kind(&["search", "Proze?"]), "wildcard_unsupported");
    assert_eq!(usage_kind(&["search", "--title", "Proze*"]), "wildcard_unsupported");
    let Err(error) = search(&["search", "Proze*"]) else {
        panic!("a wildcard must be refused");
    };
    assert!(error.message().contains("Proze*"), "{}", error.message());
}

#[test]
fn a_year_range_is_refused_as_a_range() {
    for value in ["1990-2000", "1990–2000", "1990..2000"] {
        assert_eq!(usage_kind(&["search", "Kafka", "--year", value]), "range_unsupported", "{value}");
    }
}

#[test]
fn a_year_must_be_four_digits() {
    for value in ["199", "19533", "abcd", "19x3"] {
        assert_eq!(usage_kind(&["search", "Kafka", "--year", value]), "invalid_year", "{value}");
    }
}

#[test]
fn a_bad_isbn_check_digit_is_refused_before_sending() {
    let Err(error) = search(&["search", "--isbn", "978-3-596-29433-4"]) else {
        panic!("a broken check digit must be refused");
    };
    assert_eq!(error.kind(), "invalid_isbn");
    assert!(error.message().contains("expected 6"), "{}", error.message());
}

#[test]
fn a_valid_isbn_becomes_a_normalised_identifier() {
    let plan = search(&["search", "--isbn", "978-3-596-29433-6"]).expect("a valid ISBN is a valid query");
    assert_eq!(plan.query.identifier, Some(Identifier::Isbn("9783596294336".to_owned())));
    assert_eq!(plan.terms_echo, "isbn: 978-3-596-29433-6");
}

#[test]
fn an_issn_is_carried_as_an_issn() {
    let plan = search(&["search", "--isbn", "0028-0836"]).expect("a valid ISSN");
    assert_eq!(plan.query.identifier, Some(Identifier::Issn("00280836".to_owned())));
}

#[test]
fn a_flags_only_search_echoes_as_a_summary_of_its_fields() {
    let plan = search(&["search", "--title", "Prozess", "--author", "Kafka", "--year", "1953"])
        .expect("a query made of flags");
    assert_eq!(plan.terms_echo, "title: Prozess, author: Kafka, year: 1953");
}

#[test]
fn the_echo_quotes_a_phrase_once_and_a_word_not_at_all() {
    let plan = search(&["search", "Der Prozess"]).expect("a phrase");
    assert_eq!(plan.terms_echo, "\"Der Prozess\"");
    let plan = search(&["search", "Kafka", "Prozess"]).expect("two words");
    assert_eq!(plan.terms_echo, "Kafka Prozess");
}

#[test]
fn a_mixed_search_echoes_the_free_words_and_the_fields() {
    let plan = search(&["search", "Kafka", "--title", "Prozess"]).expect("the mixed form");
    assert_eq!(plan.terms_echo, "Kafka, title: Prozess");
    let plan = search(&["search", "Prozess", "--year", "1953", "--author", "Kafka"])
        .expect("two flags beside a free word");
    assert_eq!(plan.terms_echo, "Prozess, author: Kafka, year: 1953");
    let plan = search(&["search", "Der Prozess", "--author", "Kafka"]).expect("a phrase");
    assert_eq!(plan.terms_echo, "\"Der Prozess\", author: Kafka");
}

#[test]
fn an_empty_query_is_refused() {
    assert_eq!(usage_kind(&["search"]), "empty_query");
    assert_eq!(usage_kind(&["search", "--at", "HU"]), "empty_query");
}

#[test]
fn an_empty_value_is_refused_for_every_flag_that_takes_text() {
    let cases: [&[&str]; 7] = [
        &["search", "   "],
        &["search", "Kafka", ""],
        &["search", "Kafka", "--title", ""],
        &["search", "Kafka", "--author", " "],
        &["search", "Kafka", "--subject", ""],
        &["search", "Kafka", "--publisher", ""],
        &["search", "Kafka", "--language", ""],
    ];
    for args in cases {
        assert_eq!(usage_kind(args), "empty_value", "{args:?}");
    }
}

#[test]
fn an_empty_value_names_the_flag_and_the_likely_cause() {
    let Err(error) = search(&["search", "Kafka", "--title", ""]) else {
        panic!("an empty --title must be refused");
    };
    assert_eq!(error.message(), "--title was given an empty value");
    let hint = error.hint().unwrap_or_default();
    assert!(hint.contains("--title"), "{hint}");
    assert!(hint.contains("shell variable"), "{hint}");
}

#[test]
fn the_libraries_command_refuses_empty_text_too() {
    for args in [vec!["libraries", "--find", ""], vec!["libraries", "  "], vec!["libraries", "--near", " "]] {
        let Err(error) = libraries_plan(&args) else {
            panic!("{args:?} must be refused");
        };
        assert_eq!(error.kind(), "empty_value", "{args:?}");
    }
}

#[test]
fn a_term_without_letters_or_digits_is_refused() {
    for term in ["+++", "...", "@@@", "!?", "«»"] {
        let expected = if term.contains(['*', '?']) { "wildcard_unsupported" } else { "term_without_text" };
        assert_eq!(usage_kind(&["search", term]), expected, "{term}");
    }
    assert_eq!(usage_kind(&["search", "Kafka", "--title", "###"]), "term_without_text");
    let Err(error) = search(&["search", "###"]) else {
        panic!("a term of pure punctuation must be refused");
    };
    assert!(error.message().contains("###"), "{}", error.message());
    assert_eq!(error.exit(), ExitCode::Usage);
}

#[test]
fn a_term_in_any_script_is_still_a_term() {
    for term in ["1984", "日本", "Достоевский", "Ἰλιάς", "תלמוד", "Œuvres"] {
        assert!(search(&["search", term]).is_ok(), "{term} is a search term like any other");
    }
}

#[test]
fn an_over_long_query_is_refused() {
    let long = "a".repeat(MAX_QUERY_CHARS);
    assert_eq!(usage_kind(&["search", &long]), "query_too_long");
    let just_under = "a".repeat(MAX_QUERY_CHARS - 1);
    assert!(search(&["search", &just_under]).is_ok());
}

#[test]
fn an_unknown_library_is_refused_with_suggestions() {
    let Err(error) = search(&["search", "Kafka", "--at", "STABI2"]) else {
        panic!("an unknown library must be refused");
    };
    assert_eq!(error.kind(), "unknown_library");
    assert!(error.message().contains("STABI2"), "{}", error.message());
    assert!(error.hint().unwrap_or_default().contains("STABI"), "the hint should offer the library that was meant");
}

#[test]
fn a_limit_outside_the_range_is_refused() {
    assert_eq!(usage_kind(&["search", "Kafka", "--limit", "0"]), "limit_out_of_range");
    assert_eq!(usage_kind(&["search", "Kafka", "--limit", "51"]), "limit_out_of_range");
    assert!(search(&["search", "Kafka", "--limit", "50"]).is_ok());
}

#[test]
fn page_zero_is_refused() {
    assert_eq!(usage_kind(&["search", "Kafka", "--page", "0"]), "page_out_of_range");
}

#[test]
fn a_negative_count_is_refused_by_blibs_and_not_by_clap() {
    for (flag, value) in [("--limit", "-1"), ("--page", "-3"), ("--limit", "-50")] {
        let Err(error) = search(&["search", "Kafka", flag, value]) else {
            panic!("{flag} {value} must be refused");
        };
        assert_eq!(error.kind(), "negative_number", "{flag} {value}");
        assert_eq!(error.exit(), ExitCode::Usage);
        assert!(error.message().contains(flag), "{}", error.message());
        assert!(error.message().contains(value), "{}", error.message());
        let hint = error.hint().unwrap_or_default();
        assert!(hint.contains(flag), "{hint}");
    }
    assert_eq!(usage_kind(&["search", "Kafka", "--limit", "0"]), "limit_out_of_range");
    assert_eq!(usage_kind(&["search", "Kafka", "--page", "0"]), "page_out_of_range");
}

#[test]
fn at_resolves_case_insensitively_deduplicates_and_keeps_order() {
    let plan = search(&["search", "Kafka", "--at", "hu,STABI,hu"]).expect("known libraries");
    let keys: Vec<&str> = plan.locations.iter().map(|at| at.key.as_str()).collect();
    assert_eq!(keys, ["HU", "STABI"]);
}

#[test]
fn an_isil_and_its_alias_are_one_location() {
    let plan = search(&["search", "Kafka", "--at", "DE-11,HU"]).expect("known libraries");
    assert_eq!(plan.locations.len(), 1);
    assert_eq!(plan.locations[0].isil.as_str(), "DE-11");
}

#[test]
fn an_empty_at_entry_is_refused() {
    for value in ["", "HU,,FU", "HU,", " "] {
        assert_eq!(usage_kind(&["search", "Kafka", "--at", value]), "empty_value", "{value:?}");
    }
}

#[test]
fn at_chooses_the_engines() {
    let plan = search(&["search", "Kafka"]).expect("a query without --at");
    assert_eq!(plan.engines(), [Engine::Kobv]);
    let plan = search(&["search", "Kafka", "--at", "AGB"]).expect("a VÖBB branch");
    assert_eq!(plan.engines(), [Engine::Voebb]);
    let plan = search(&["search", "Kafka", "--at", "STABI,HU,AGB"]).expect("a mixed location list");
    assert_eq!(plan.engines(), [Engine::Kobv, Engine::Voebb]);
    let grouped = plan.by_engine();
    assert_eq!(grouped[0].1.len(), 2, "STABI and HU go to one search");
    assert_eq!(grouped[1].1.len(), 1);
}

#[test]
fn the_engine_order_does_not_follow_the_order_of_at() {
    for at in ["AGB,HU", "HU,AGB", "AGB,STABI,HU", "HU,AGB,STABI"] {
        let plan = search(&["search", "Kafka", "--at", at]).expect("known libraries");
        assert_eq!(plan.engines(), [Engine::Kobv, Engine::Voebb], "--at {at} must still run kobv first");
        let grouped = plan.by_engine();
        assert_eq!(grouped[0].0, Engine::Kobv);
        assert_eq!(grouped[1].0, Engine::Voebb);
    }
    let plan = search(&["search", "Kafka", "--at", "HU,AGB,STABI"]).expect("known libraries");
    let grouped = plan.by_engine();
    let keys: Vec<&str> = grouped[0].1.iter().map(|location| location.key.as_str()).collect();
    assert_eq!(keys, ["HU", "STABI"]);
}

#[test]
fn a_non_voebb_branch_is_a_kobv_location() {
    let plan = search(&["search", "Kafka", "--at", "PHILBIB"]).expect("a branch of the FU");
    let [location] = plan.locations.as_slice() else {
        panic!("one location");
    };
    assert_eq!(location.engine, Engine::Kobv);
    assert_eq!(location.isil.as_str(), "DE-188");
    let branch = location.branch.as_ref().expect("a branch location names it");
    assert_eq!(branch.kobvid, "FUB00019");
}

#[test]
fn voebb_honours_the_four_measured_indexes() {
    let plan = search(&[
        "search", "--at", "AGB", "--title", "Der Vorleser", "--author", "Schlink", "--subject", "Roman",
        "--isbn", "978-3-596-29433-6",
    ])
    .expect("the four indexes voebb.de offers");
    assert_eq!(plan.engines(), [Engine::Voebb]);
}

#[test]
fn voebb_refuses_publisher_and_year() {
    for flag in ["--publisher", "--year"] {
        let value = if flag == "--year" { "1953" } else { "Fischer" };
        let Err(error) = search(&["search", "Vorleser", "--at", "AGB", flag, value]) else {
            panic!("{flag} has no index on voebb.de");
        };
        assert_eq!(error.kind(), "unsupported_by_engine");
        assert!(error.message().contains(flag), "{}", error.message());
        assert!(error.message().contains("voebb"), "{}", error.message());
    }
}

#[test]
fn a_voebb_window_past_the_tenth_page_is_refused() {
    let deep = &["search", "Vorleser", "--at", "AGB", "--limit", "10", "--page"];
    assert!(search(&[deep.as_slice(), &["22"]].concat()).is_ok(), "page 22 of 10 ends exactly at 220");
    let error = match search(&[deep.as_slice(), &["23"]].concat()) {
        Ok(plan) => panic!("expected a usage error, got {plan:?}"),
        Err(error) => error,
    };
    assert_eq!(error.exit(), ExitCode::Usage);
    assert_eq!(error.kind(), "window_too_deep");
    assert!(error.message().contains("--page 23"), "{}", error.message());
    assert!(error.hint().unwrap_or_default().contains("220"), "the hint names where paging stops");
}

#[test]
fn a_filtered_window_cannot_be_too_deep() {
    let deep = &["search", "Vorleser", "--at", "AGB", "--limit", "50", "--page", "6"];
    assert_eq!(usage_kind(deep), "window_too_deep");
    assert!(
        search(&[deep.as_slice(), &["--format", "book"]].concat()).is_ok(),
        "the filtered window is one anchored block and stays inside the depth"
    );
}

#[test]
fn one_locations_paging_ceiling_does_not_refuse_the_others() {
    let deep = &["search", "Vorleser", "--at", "HU,AGB", "--limit", "20", "--page", "20"];
    let plan = search(deep).expect("HU reaches result 400, so the run is not refused");
    let too_deep = plan.too_deep.as_ref().expect("AGB cannot be paged to result 400");
    assert_eq!(too_deep.keys, vec!["AGB".to_owned()]);
    assert_eq!(too_deep.max, MAX_POSITION);
    assert_eq!(too_deep.position, 400);
    let searched = plan.by_engine();
    assert_eq!(searched.len(), 1, "{searched:?}");
    assert_eq!(searched[0].0, Engine::Kobv);
    assert_eq!(searched[0].1.len(), 1, "AGB is not searched: {searched:?}");
    assert_eq!(plan.locations.len(), 2, "the refused location keeps its block");
    assert_eq!(plan.engines(), vec![Engine::Kobv, Engine::Voebb]);
}

#[test]
fn a_run_of_nothing_but_voebb_locations_is_still_a_usage_error() {
    let deep = &["search", "Vorleser", "--at", "AGB", "--limit", "20", "--page", "20"];
    let Err(error) = search(deep) else {
        panic!("a window past the tenth page is refused");
    };
    assert_eq!(error.exit(), ExitCode::Usage);
    assert_eq!(error.kind(), "window_too_deep");
    assert!(error.message().contains("--page 20"), "{}", error.message());
    assert_eq!(
        usage_kind(&["search", "Vorleser", "--at", "AGB,BSTB", "--limit", "20", "--page", "20"]),
        "window_too_deep"
    );
}

#[test]
fn sorting_does_not_move_the_voebb_depth_boundary() {
    let inside = &["search", "Vorleser", "--at", "AGB", "--limit", "50", "--page", "2"];
    assert!(search(inside).is_ok(), "page 2 of 50 ends at 100");
    assert!(search(&[inside.as_slice(), &["--sort", "year"]].concat()).is_ok());
    let outside = &["search", "Vorleser", "--at", "AGB", "--limit", "50", "--page", "6"];
    assert_eq!(usage_kind(outside), "window_too_deep");
    assert_eq!(usage_kind(&[outside.as_slice(), &["--sort", "year"]].concat()), "window_too_deep");
}

#[test]
fn a_sort_anchors_the_window_and_the_cut_together() {
    let plan = search(&["search", "Kafka", "--sort", "title", "--page", "2"]).expect("a plain sorted search");
    assert!(plan.anchored());
    assert_eq!(plan.window().start, 1, "the block stays at record 1");
    assert_eq!(plan.window().size.get(), MAX_SRU_PAGE_SIZE, "the block is the widest the service serves");
    assert_eq!(plan.cut().offset, usize::from(plan.limit.get()), "page 2 walks the matches inside the block");
    let stepped = search(&["search", "Kafka", "--sort", "relevance", "--page", "2"]).expect("a relevance search");
    assert!(!stepped.anchored());
    assert_eq!(stepped.window().start, 11);
    assert_eq!(stepped.cut().offset, 0);
}

#[test]
fn a_location_remembers_the_word_the_user_typed() {
    let plan = search(&["search", "Kafka", "--at", "ZLB"]).expect("ZLB is a known library");
    assert_eq!(plan.locations[0].key, "VOEBB");
    assert_eq!(plan.locations[0].given, "ZLB");
    let plan = search(&["search", "Kafka", "--at", "DE-11,HU"]).expect("known libraries");
    assert_eq!(plan.locations.len(), 1);
    assert_eq!(plan.locations[0].given, "DE-11");
}

#[test]
fn a_deep_window_is_fine_without_a_voebb_location() {
    assert!(search(&["search", "Kafka", "--page", "10000"]).is_ok());
    assert!(search(&["search", "Kafka", "--at", "HU", "--page", "10000"]).is_ok());
}

#[test]
fn publisher_and_year_are_fine_for_kobv() {
    assert!(search(&["search", "--at", "HU", "--publisher", "Fischer", "--year", "1953"]).is_ok());
}

#[test]
fn client_side_flags_are_never_refused_by_an_engine() {
    assert!(search(&[
        "search", "Vorleser", "--at", "AGB", "--sort", "year", "--format", "book", "--language", "ger",
    ])
    .is_ok());
}

#[test]
fn paging_is_allowed_for_voebb() {
    assert!(search(&["search", "Vorleser", "--at", "AGB", "--page", "2"]).is_ok());
}

#[test]
fn a_full_invocation_becomes_a_complete_plan() {
    let plan = search(&[
        "search", "Der Prozess", "Kafka", "--author", "Franz Kafka", "--year", "1953", "--at", "HU,STABI",
        "--limit", "5", "--page", "2", "--sort", "year", "--format", "book", "--language", "GER", "--json",
        "--no-cache",
    ])
    .expect("a valid invocation");
    assert_eq!(plan.query.terms, [Term::Phrase("Der Prozess".to_owned()), Term::Word("Kafka".to_owned())]);
    assert_eq!(plan.query.author.as_deref(), Some("Franz Kafka"));
    assert_eq!(plan.query.year, Some(1953));
    assert_eq!(plan.terms_echo, "\"Der Prozess\" Kafka, author: Franz Kafka, year: 1953");
    assert_eq!(plan.limit.get(), 5);
    assert_eq!(plan.page.get(), 2);
    assert_eq!(plan.sort, SortKey::Year);
    assert_eq!(plan.filters.format, Some(Format::Book));
    assert_eq!(plan.filters.language.as_deref(), Some("ger"));
    assert_eq!(plan.availability, AvailabilityMode::Fetched);
    assert!(plan.json);
    assert!(!plan.cache);
}

#[test]
fn the_defaults_come_from_the_domain_types() {
    let plan = search(&["search", "Kafka"]).expect("a bare search");
    assert_eq!(plan.limit, Limit::default_limit());
    assert_eq!(plan.page, Page::first());
    assert_eq!(plan.sort, SortKey::Relevance);
    assert_eq!(plan.filters, Filters::default());
    assert_eq!(plan.availability, AvailabilityMode::Fetched);
    assert!(plan.cache, "the cache is on unless --no-cache says otherwise");
}

#[test]
fn a_filter_widens_the_window() {
    let plain = search(&["search", "Kafka", "--limit", "10"]).expect("a bare search");
    assert_eq!(plain.window().size.get(), 10);
    let filtered = search(&["search", "Kafka", "--limit", "10", "--format", "video"]).expect("filtered");
    assert_eq!(filtered.window().size.get(), 50);
}

#[test]
fn the_availability_filter_leaves_the_window_at_the_limit() {
    let plan = search(&["search", "Kafka", "--limit", "10", "--available"]).expect("filtered by availability");
    assert_eq!(plan.window().size.get(), 10);
}

#[test]
fn available_is_carried_as_a_plan_flag() {
    let filtered = search(&["search", "Kafka", "--available"]).expect("a bare search");
    assert!(filtered.only_available);
    let plain = search(&["search", "Kafka"]).expect("a bare search");
    assert!(!plain.only_available);
}

#[test]
fn available_and_no_availability_are_refused_together() {
    let Err(error) = search(&["search", "Kafka", "--available", "--no-availability"]) else {
        panic!("the two availability flags contradict each other");
    };
    assert_eq!(error.exit(), ExitCode::Usage);
    assert_eq!(error.kind(), "conflicting_flags");
    for flag in ["--available", "--no-availability"] {
        assert!(error.message().contains(flag), "{}", error.message());
    }
    assert!(error.hint().is_some(), "a usage error names the way out");
}

#[test]
fn sorting_by_availability_conflicts_with_no_availability() {
    let Err(error) = search(&["search", "Kafka", "--sort", "availability", "--no-availability"]) else {
        panic!("there is nothing to sort by when nothing is asked");
    };
    assert_eq!(error.exit(), ExitCode::Usage);
    assert_eq!(error.kind(), "conflicting_flags");
    for flag in ["--sort availability", "--no-availability"] {
        assert!(error.message().contains(flag), "{}", error.message());
    }
    assert!(error.hint().is_some());
    for key in ["relevance", "year", "title", "author"] {
        assert!(search(&["search", "Kafka", "--sort", key, "--no-availability"]).is_ok(), "--sort {key} needs no status");
    }
    assert!(search(&["search", "Kafka", "--sort", "availability"]).is_ok());
}

#[test]
fn no_availability_is_carried_as_skipped() {
    let plan = search(&["search", "Kafka", "--no-availability"]).expect("a bare search");
    assert_eq!(plan.availability, AvailabilityMode::Skipped);
}

#[test]
fn global_flags_may_follow_the_subcommand() {
    let plan = search(&["search", "Kafka", "--json"]).expect("a bare search");
    assert!(plan.json);
}

#[test]
fn a_language_must_be_a_three_letter_code() {
    for value in ["de", "german", "g3r", "GER1"] {
        assert_eq!(usage_kind(&["search", "Kafka", "--language", value]), "invalid_language", "{value}");
    }
    let Err(error) = search(&["search", "Kafka", "--language", "de"]) else {
        panic!("a two-letter code must be refused");
    };
    assert!(error.message().contains("three-letter"), "{}", error.message());
    assert!(!error.message().contains("error:"), "{}", error.message());
    assert!(error.hint().unwrap_or_default().contains("--language ger"));
}

const TERMINOLOGY_CODES: [(&str, &str); 20] = [
    ("bod", "tib"), ("ces", "cze"), ("cym", "wel"), ("deu", "ger"), ("ell", "gre"),
    ("eus", "baq"), ("fas", "per"), ("fra", "fre"), ("hye", "arm"), ("isl", "ice"),
    ("kat", "geo"), ("mkd", "mac"), ("mri", "mao"), ("msa", "may"), ("mya", "bur"),
    ("nld", "dut"), ("ron", "rum"), ("slk", "slo"), ("sqi", "alb"), ("zho", "chi"),
];

#[test]
fn a_terminology_code_names_the_bibliographic_one() {
    for (terminology, bibliographic) in TERMINOLOGY_CODES {
        let Err(error) = search(&["search", "Kafka", "--language", terminology]) else {
            panic!("--language {terminology} must be redirected");
        };
        assert_eq!(error.kind(), "language_code_variant", "{terminology}");
        assert_eq!(error.exit(), ExitCode::Usage);
        assert!(error.message().contains(terminology), "{}", error.message());
        assert!(error.hint().unwrap_or_default().contains(bibliographic));
    }
    let Err(error) = search(&["search", "Kafka", "--language", "DEU"]) else {
        panic!("case does not make it a different code");
    };
    assert_eq!(error.kind(), "language_code_variant");
    assert!(error.message().contains("DEU"), "{}", error.message());
}

#[test]
fn a_code_that_is_neither_variant_is_still_accepted() {
    for value in ["xyz", "ger", "eng", "grc", "gsw"] {
        let plan = search(&["search", "Kafka", "--language", value])
            .unwrap_or_else(|error| panic!("--language {value} must pass: {}", error.message()));
        assert_eq!(plan.filters.language.as_deref(), Some(value));
    }
}

#[test]
fn a_three_letter_code_is_normalised_to_lowercase() {
    let plan = search(&["search", "Kafka", "--language", "GER"]).expect("a valid code");
    assert_eq!(plan.filters.language.as_deref(), Some("ger"));
}

#[test]
fn every_advertised_value_maps_to_an_enum() {
    for value in blibs::cli::sort_values() {
        assert!(search(&["search", "Kafka", "--sort", value]).is_ok(), "--sort {value}");
    }
    for value in blibs::cli::format_values() {
        assert!(search(&["search", "Kafka", "--format", value]).is_ok(), "--format {value}");
    }
}

#[test]
fn show_takes_the_engine_from_the_id_prefix() {
    let (Parsed::Show(args), json, cache) = parse(&["show", "voebb_SAK13776205", "--at", "HU"]) else {
        panic!("expected show");
    };
    let plan = validate_show(&args, json, cache).expect("a valid id");
    assert_eq!(plan.engine(), Engine::Voebb);
    assert_eq!(plan.id.local_id(), "SAK13776205");
    assert_eq!(plan.locations.len(), 1);
    assert_eq!(plan.locations[0].engine, Engine::Kobv);
}

#[test]
fn show_refuses_an_id_without_a_source_prefix() {
    let (Parsed::Show(args), _, _) = parse(&["show", "BV008885798"]) else {
        panic!("expected show");
    };
    let Err(error) = validate_show(&args, false, true) else {
        panic!("an id without a prefix cannot be routed");
    };
    assert_eq!(error.kind(), "invalid_record_id");
    assert_eq!(error.exit(), ExitCode::Usage);
}

#[test]
fn near_accepts_coordinates() {
    let plan = libraries_plan(&["libraries", "--near", "52.52,13.39"]).expect("coordinates");
    let point = plan.near.expect("a point");
    assert!((f64::from(point.lat_e6) / 1e6 - 52.52).abs() < 1e-9);
    assert!((f64::from(point.lon_e6) / 1e6 - 13.39).abs() < 1e-9);
}

#[test]
fn near_accepts_a_library() {
    let plan = libraries_plan(&["libraries", "--near", "HU"]).expect("a known library");
    assert!(plan.near.is_some());
}

#[test]
fn near_refuses_an_address() {
    let Err(error) = libraries_plan(&["libraries", "--near", "Alexanderplatz, Berlin"]) else {
        panic!("an address must be refused");
    };
    assert_eq!(error.kind(), "near_needs_coordinates");
    assert!(error.hint().unwrap_or_default().contains("--near HU"), "the hint must name both accepted forms");
}

#[test]
fn a_detail_key_is_resolved_to_what_it_names() {
    let plan = libraries_plan(&["libraries", "stabi"]).expect("STABI is a library");
    assert!(
        matches!(&plan.detail, Some(Entry::Institution(library)) if library.isil == "DE-1"),
        "{:?}",
        plan.detail
    );
    assert!(plan.find.is_none());
    let plan = libraries_plan(&["libraries", "agb"]).expect("AGB is a branch");
    assert!(
        matches!(&plan.detail, Some(Entry::Branch { branch, .. }) if branch.kobvid == "SIG00036"),
        "{:?}",
        plan.detail
    );
}

#[test]
fn an_unknown_detail_key_is_a_usage_error() {
    let Err(error) = libraries_plan(&["libraries", "STABI2"]) else {
        panic!("an unknown key must be refused");
    };
    assert_eq!(error.kind(), "unknown_library");
    assert_eq!(error.exit(), ExitCode::Usage);
    assert!(error.hint().unwrap_or_default().contains("STABI"), "the hint must offer the near miss");
}

#[test]
fn find_and_near_may_combine() {
    let plan = libraries_plan(&["libraries", "--find", "grimm", "--near", "HU"]).expect("both selectors");
    assert_eq!(plan.find.as_deref(), Some("grimm"));
    assert!(plan.near.is_some());
}

#[test]
fn a_drifted_value_is_an_error_not_a_panic() {
    let Err(error) = search(&["search", "Kafka", "--sort", "nonsense"]) else {
        panic!("not an advertised value");
    };
    assert_eq!(error.kind(), "unsupported_value");
    assert!(error.message().contains("--sort"), "{}", error.message());
    assert!(error.hint().unwrap_or_default().contains("bug in blibs"));
}

#[test]
fn a_key_and_a_listing_flag_are_refused_together() {
    let Err(error) = libraries_plan(&["libraries", "HU", "--find", "x"]) else {
        panic!("a key and --find conflict");
    };
    assert_eq!(error.kind(), "conflicting_flags");
    assert!(error.message().contains("--find"));
}

#[test]
fn no_locations_is_one_kobv_group_without_a_filter() {
    let groups = split_by_engine(&Vec::new());
    assert_eq!(groups.len(), 1);
    assert_eq!(groups[0].0, Engine::Kobv);
    assert!(groups[0].1.is_empty());
}
