use cluster_controller::metrics::{filter_metrics, service_metrics, MetricGroup};

const PREFIXES: [&str; 1] = ["restate_services_"];

/// The filter as the standard library's string functions express it.
fn reference_filter(input: &str, retain_prefixes: &[&str]) -> String {
    let mut result = String::new();
    let mut state = MetricGroup::MaybeMatching(vec![]);
    for line in input.lines() {
        if line.starts_with("# TYPE ") {
            let parts: Vec<&str> = line.split_whitespace().collect();
            let in_matching_group = if parts.len() >= 3 {
                let current_metric = parts[2].to_string();
                Some(
                    retain_prefixes
                        .iter()
                        .any(|&prefix| current_metric.starts_with(prefix)),
                )
            } else {
                None
            };
            state = state.on_next_line(line, in_matching_group)
        } else if line.trim().is_empty() {
            state = state.on_group_end(&mut result);
        } else {
            state = state.on_next_line(line, None);
        }
    }
    result
}

fn lines(items: &[&str]) -> Vec<String> {
    items.iter().map(|s| s.to_string()).collect()
}

#[test]
fn matching_group_takes_every_line() {
    let group = MetricGroup::Matching(lines(&["a"]));
    assert_eq!(
        group.on_next_line("b", Some(false)),
        MetricGroup::Matching(lines(&["a", "b"]))
    );
    let group = MetricGroup::Matching(lines(&[]));
    assert_eq!(
        group.on_next_line("c", None),
        MetricGroup::Matching(lines(&["c"]))
    );
}

#[test]
fn undecided_group_follows_the_decision() {
    let undecided = || MetricGroup::MaybeMatching(lines(&["# HELP x"]));
    assert_eq!(
        undecided().on_next_line("# TYPE x counter", Some(true)),
        MetricGroup::Matching(lines(&["# HELP x", "# TYPE x counter"]))
    );
    assert_eq!(
        undecided().on_next_line("# TYPE x counter", Some(false)),
        MetricGroup::NotMatching
    );
    assert_eq!(
        undecided().on_next_line("x 1", None),
        MetricGroup::MaybeMatching(lines(&["# HELP x", "x 1"]))
    );
}

#[test]
fn dropped_group_stays_dropped() {
    assert_eq!(
        MetricGroup::NotMatching.on_next_line("x 1", Some(true)),
        MetricGroup::NotMatching
    );
    assert_eq!(
        MetricGroup::NotMatching.on_next_line("x 1", None),
        MetricGroup::NotMatching
    );
}

#[test]
fn group_end_writes_a_matching_group() {
    let mut buffer = String::new();
    let next = MetricGroup::Matching(lines(&["a", "b"])).on_group_end(&mut buffer);
    assert_eq!(buffer, "a\nb\n");
    assert_eq!(next, MetricGroup::MaybeMatching(vec![]));

    let next = MetricGroup::Matching(lines(&["c"])).on_group_end(&mut buffer);
    assert_eq!(buffer, "a\nb\n\nc\n");
    assert_eq!(next, MetricGroup::MaybeMatching(vec![]));
}

#[test]
fn group_end_writes_nothing_of_other_groups() {
    let mut buffer = String::from("kept\n");
    let next = MetricGroup::MaybeMatching(lines(&["a"])).on_group_end(&mut buffer);
    assert_eq!(buffer, "kept\n");
    assert_eq!(next, MetricGroup::MaybeMatching(vec![]));
    let next = MetricGroup::NotMatching.on_group_end(&mut buffer);
    assert_eq!(buffer, "kept\n");
    assert_eq!(next, MetricGroup::MaybeMatching(vec![]));
}

#[test]
fn empty_matching_group_still_separates() {
    let mut buffer = String::from("kept\n");
    MetricGroup::Matching(vec![]).on_group_end(&mut buffer);
    assert_eq!(buffer, "kept\n\n");
}

#[test]
fn filter_keeps_matching_groups_whole() {
    let input = "\
# HELP other_total Something else.
# TYPE other_total counter
other_total 7

# HELP restate_services_calls Calls.
# TYPE restate_services_calls counter
restate_services_calls{service=\"a\"} 1
restate_services_calls{service=\"b\"} 2

# TYPE restate_services_latency summary
restate_services_latency_sum 3

# TYPE unrelated gauge
unrelated 1

";
    let expected = "\
# HELP restate_services_calls Calls.
# TYPE restate_services_calls counter
restate_services_calls{service=\"a\"} 1
restate_services_calls{service=\"b\"} 2

# TYPE restate_services_latency summary
restate_services_latency_sum 3
";
    assert_eq!(filter_metrics(input.to_string(), &PREFIXES), expected);
}

#[test]
fn filter_keeps_a_matching_group_that_opens_the_exposition() {
    let input = "# TYPE restate_services_a counter\nrestate_services_a 1\n\n";
    let result = filter_metrics(input.to_string(), &PREFIXES);
    assert_eq!(
        result.lines().collect::<Vec<_>>(),
        vec!["# TYPE restate_services_a counter", "restate_services_a 1"]
    );
    assert_eq!(result, "# TYPE restate_services_a counter\nrestate_services_a 1\n");

    let input = "# HELP restate_services_a A.\n# TYPE restate_services_a counter\nrestate_services_a 1\n\n# TYPE other gauge\nother 2\n\n";
    assert_eq!(
        filter_metrics(input.to_string(), &PREFIXES),
        "# HELP restate_services_a A.\n# TYPE restate_services_a counter\nrestate_services_a 1\n"
    );
}

#[test]
fn filter_drops_a_group_that_opens_the_exposition_and_does_not_match() {
    let input = "# HELP other O.\n# TYPE other gauge\nother 2\n\n# TYPE restate_services_a counter\nrestate_services_a 1\n\n";
    assert_eq!(
        filter_metrics(input.to_string(), &PREFIXES),
        "# TYPE restate_services_a counter\nrestate_services_a 1\n"
    );
    // Lines without a type line are never decided, and never written.
    assert_eq!(filter_metrics("orphan 1\n\n".to_string(), &PREFIXES), "");
}

#[test]
fn endpoint_answers_with_the_metrics_of_the_services() {
    assert_eq!(service_metrics(None), "");
    let rendered = "# TYPE restate_services_a counter\nrestate_services_a 1\n\n# TYPE other gauge\nother 2\n\n# TYPE restate_other gauge\nrestate_other 3\n\n";
    assert_eq!(
        service_metrics(Some(rendered.to_string())),
        "# TYPE restate_services_a counter\nrestate_services_a 1\n"
    );
    assert_eq!(
        service_metrics(Some(rendered.to_string())),
        filter_metrics(rendered.to_string(), &["restate_services_"])
    );
}

#[test]
fn filter_keeps_lines_before_the_type_line_after_a_group_end() {
    // Once a group has ended, the lines before the next type line are kept
    // until that line decides.
    let input = "\n# HELP restate_services_x X.\n# TYPE restate_services_x gauge\nrestate_services_x 1\n\n";
    let expected = "# HELP restate_services_x X.\n# TYPE restate_services_x gauge\nrestate_services_x 1\n";
    assert_eq!(filter_metrics(input.to_string(), &PREFIXES), expected);
}

#[test]
fn filter_drops_a_group_without_its_end() {
    let input = "\n# TYPE restate_services_x gauge\nrestate_services_x 1";
    assert_eq!(filter_metrics(input.to_string(), &PREFIXES), "");
}

#[test]
fn filter_of_nothing_is_nothing() {
    assert_eq!(filter_metrics(String::new(), &PREFIXES), "");
    assert_eq!(filter_metrics("\n\n\n".to_string(), &PREFIXES), "");
    assert_eq!(filter_metrics("# TYPE restate_services_x gauge\n\n".to_string(), &[]), "");
}

#[test]
fn type_line_without_name_defers_the_decision() {
    // The first type line has no third token and decides nothing; the next
    // one decides for the whole group.
    let input = "\n# TYPE \n# TYPE restate_services_x gauge\nrestate_services_x 1\n\n";
    let expected = "# TYPE \n# TYPE restate_services_x gauge\nrestate_services_x 1\n";
    assert_eq!(filter_metrics(input.to_string(), &PREFIXES), expected);

    let input = "\n# TYPE \n# TYPE other gauge\nother 1\n\n";
    assert_eq!(filter_metrics(input.to_string(), &PREFIXES), "");

    // Undecided to the end of the group: nothing is written.
    let input = "\n# TYPE \nrestate_services_x 1\n\n";
    assert_eq!(filter_metrics(input.to_string(), &PREFIXES), "");
}

#[test]
fn any_prefix_is_enough() {
    let input = "\n# TYPE beta_x gauge\nbeta_x 1\n\n# TYPE gamma_x gauge\ngamma_x 1\n\n";
    assert_eq!(
        filter_metrics(input.to_string(), &["alpha_", "beta_"]),
        "# TYPE beta_x gauge\nbeta_x 1\n"
    );
    assert_eq!(
        filter_metrics(input.to_string(), &[""]),
        "# TYPE beta_x gauge\nbeta_x 1\n\n# TYPE gamma_x gauge\ngamma_x 1\n"
    );
}

#[test]
fn carriage_returns_end_lines_only_before_a_line_feed() {
    let input = "\r\n# TYPE restate_services_x gauge\r\nrestate_services_x 1\r\n\r\n";
    let expected = "# TYPE restate_services_x gauge\nrestate_services_x 1\n";
    assert_eq!(filter_metrics(input.to_string(), &PREFIXES), expected);

    let input = "\n# TYPE restate_services_x gauge\nrestate\rservices 1\n\r";
    let expected = "# TYPE restate_services_x gauge\nrestate\rservices 1\n";
    assert_eq!(filter_metrics(input.to_string(), &PREFIXES), expected);
}

#[test]
fn filter_agrees_with_the_standard_string_functions() {
    let inputs = [
        "",
        "\n",
        "\r",
        "\r\n",
        "a",
        "a\n",
        "a\r",
        "a\r\n",
        "a\r\r\n",
        "\n\n",
        " \t \n",
        "# TYPE restate_services_a counter\nv 1\n\n",
        "\n# TYPE restate_services_a counter\nv 1\n\n",
        "\n# TYPE restate_services_a counter\nv 1\n \n",
        "\n# TYPE restate_services_a counter\nv 1\n\u{a0}\u{3000}\n",
        "\n# TYPE restate_services_a counter\nv 1\n\u{200b}\n",
        "\n# TYPE\trestate_services_a counter\nv 1\n\n",
        "\n# TYPE  \t restate_services_a   counter\nv 1\n\n",
        "\n# TYPE \u{2003}restate_services_a counter\nv 1\n\n",
        "\n# TYPE restate_services_a\nv 1\n\n",
        "\n# TYPE restate_services_\nv 1\n\n",
        "\n# TYPE restate_services\nv 1\n\n",
        "\n# TYPE\nv 1\n\n",
        "\n# TYPE \nv 1\n\n# TYPE restate_services_b gauge\nw 2\n\n",
        "\n#TYPE restate_services_a counter\nv 1\n\n",
        "\n # TYPE restate_services_a counter\nv 1\n\n",
        "\n# TYPE Restate_services_a counter\nv 1\n\n",
        "\n# HELP a\n# TYPE restate_services_a counter\n# TYPE other counter\nv 1\n\n",
        "\n# TYPE other counter\n# TYPE restate_services_a counter\nv 1\n\n",
        "\n# TYPE restate_services_a counter\r\nv 1\r\n\r\n# TYPE restate_services_b gauge\r\nw\r\n\r\n",
        "\n# TYPE restate_services_\u{e9}t\u{e9} counter\n\u{e9}t\u{e9} 1\n\n",
        "\n# TYPE restate_services_a counter\nv 1\n\n\n\n# TYPE restate_services_b gauge\nw 2\n\n",
        "\n# TYPE restate_services_a counter\nv 1\n\n# TYPE restate_services_b gauge\nw 2",
        "\n\u{85}\n# TYPE restate_services_a counter\nv\u{2028}1\n\u{1680}\u{202f}\u{205f}\n",
    ];
    let prefix_sets: [&[&str]; 4] = [
        &["restate_services_"],
        &[],
        &["", "x"],
        &["other", "restate_services_b", "restate_services_\u{e9}"],
    ];
    for input in inputs {
        for prefixes in prefix_sets {
            assert_eq!(
                filter_metrics(input.to_string(), prefixes),
                reference_filter(input, prefixes),
                "input {input:?} with prefixes {prefixes:?}"
            );
        }
    }
}

#[test]
fn white_space_is_what_the_standard_library_says() {
    // A line is empty for the filter exactly where `char::is_whitespace`
    // holds of each of its characters.
    for code in 0u32..=0x11_0000 {
        let Some(c) = char::from_u32(code) else {
            continue;
        };
        if c == '\n' {
            continue;
        }
        let input = format!("\n# TYPE a b\nv\n{c}\n");
        let written = !filter_metrics(input, &[""]).is_empty();
        assert_eq!(written, c.is_whitespace(), "character {code:#x}");
    }
}
