use delete_ecs_clusters_rs::executor::OperationOutcome;
use delete_ecs_clusters_rs::fan_out::{FanOutStep, NoRegionRunning, RegionFanOut};
use delete_ecs_clusters_rs::region_list::{is_whitespace, parse_region_list};

fn expected_regions(text: &str) -> Vec<String> {
    text.lines().map(|line| line.trim()).filter(|line| !line.is_empty()).map(String::from).collect()
}

fn regions(names: &[&str]) -> Vec<String> {
    names.iter().map(|name| name.to_string()).collect()
}

#[test]
fn blank_line_in_the_region_list_is_ignored() {
    assert_eq!(
        parse_region_list("us-east-1\n\nus-west-2\n"),
        vec!["us-east-1".to_string(), "us-west-2".to_string()]
    );
}

#[test]
fn empty_region_list_names_no_region() {
    assert!(parse_region_list("").is_empty());
    assert!(parse_region_list("\n").is_empty());
    assert!(parse_region_list("  \n\t\n \r\n").is_empty());
}

#[test]
fn regions_are_trimmed() {
    assert_eq!(
        parse_region_list("  us-east-1\t\r\n\teu-west-1  \nap-south-1"),
        vec!["us-east-1".to_string(), "eu-west-1".to_string(), "ap-south-1".to_string()]
    );
}

#[test]
fn blanks_inside_a_line_stay() {
    assert_eq!(parse_region_list(" a b \n"), vec!["a b".to_string()]);
}

#[test]
fn last_line_needs_no_line_feed() {
    assert_eq!(parse_region_list("eu-central-1"), vec!["eu-central-1".to_string()]);
    assert_eq!(parse_region_list("\n\neu-central-1"), vec!["eu-central-1".to_string()]);
}

#[test]
fn wide_characters_are_read_whole() {
    assert_eq!(
        parse_region_list("\u{3000}r\u{e9}gion-\u{1F30D}\u{a0}\n\u{2003}\nzone\u{2028}"),
        vec!["r\u{e9}gion-\u{1F30D}".to_string(), "zone".to_string()]
    );
}

#[test]
fn region_list_agrees_with_trimmed_lines() {
    let texts = [
        "",
        "\n",
        "a",
        "a\n",
        "\na",
        "a\n\nb",
        " a \n b \n",
        "a\r\nb\r\n",
        "\r\n\r\n",
        "   ",
        "x y\tz\n\n\n  \nq",
        "\u{a0}a\u{a0}\n\u{85}\nb\u{1680}",
        "us-east-1\n\nus-west-2\n",
        "\u{b}a\u{c}\n",
    ];
    for text in texts {
        assert_eq!(parse_region_list(text), expected_regions(text), "text {:?}", text);
    }
}

#[test]
fn blanks_are_the_white_space_characters() {
    for code in 0..=0x10FFFFu32 {
        if let Some(c) = char::from_u32(code) {
            assert_eq!(is_whitespace(c), c.is_whitespace(), "U+{:04X}", code);
        }
    }
}

#[test]
fn failed_region_does_not_stop_the_others() {
    let mut fan_out = RegionFanOut::new(regions(&["A", "B", "C"]));
    assert_eq!(fan_out.poll(), FanOutStep::Run { index: 0, region: "A".to_string() });
    assert_eq!(fan_out.record(OperationOutcome::Succeeded), Ok(()));
    assert_eq!(fan_out.poll(), FanOutStep::Run { index: 1, region: "B".to_string() });
    assert_eq!(fan_out.record(OperationOutcome::Failed), Ok(()));
    assert_eq!(fan_out.poll(), FanOutStep::Run { index: 2, region: "C".to_string() });
    assert_eq!(fan_out.record(OperationOutcome::Succeeded), Ok(()));
    assert_eq!(fan_out.poll(), FanOutStep::Finished);
    assert_eq!(
        fan_out.outcomes(),
        &vec![OperationOutcome::Succeeded, OperationOutcome::Failed, OperationOutcome::Succeeded]
    );
    assert_eq!(fan_out.regions(), &regions(&["A", "B", "C"]));
}

#[test]
fn regions_run_one_at_a_time() {
    let mut fan_out = RegionFanOut::new(regions(&["A", "B"]));
    assert_eq!(fan_out.poll(), FanOutStep::Run { index: 0, region: "A".to_string() });
    assert_eq!(fan_out.poll(), FanOutStep::Wait);
    assert_eq!(fan_out.poll(), FanOutStep::Wait);
    assert!(fan_out.outcomes().is_empty());
    assert_eq!(fan_out.record(OperationOutcome::Succeeded), Ok(()));
    assert_eq!(fan_out.poll(), FanOutStep::Run { index: 1, region: "B".to_string() });
}

#[test]
fn outcome_without_a_running_region_is_refused() {
    let mut fan_out = RegionFanOut::new(regions(&["A"]));
    assert_eq!(fan_out.record(OperationOutcome::Succeeded), Err(NoRegionRunning));
    assert!(fan_out.outcomes().is_empty());
    assert_eq!(fan_out.poll(), FanOutStep::Run { index: 0, region: "A".to_string() });
    assert_eq!(fan_out.record(OperationOutcome::Failed), Ok(()));
    assert_eq!(fan_out.record(OperationOutcome::Failed), Err(NoRegionRunning));
    assert_eq!(fan_out.outcomes(), &vec![OperationOutcome::Failed]);
    assert_eq!(fan_out.poll(), FanOutStep::Finished);
}

#[test]
fn fan_out_over_no_region_is_finished() {
    let mut fan_out = RegionFanOut::new(Vec::new());
    assert_eq!(fan_out.poll(), FanOutStep::Finished);
}

#[test]
fn two_clients_for_a_list_with_a_blank_line() {
    let mut fan_out = RegionFanOut::new(parse_region_list("us-east-1\n\nus-west-2\n"));
    let mut handed_out = Vec::new();
    while let FanOutStep::Run { region, .. } = fan_out.poll() {
        handed_out.push(region);
        fan_out.record(OperationOutcome::Succeeded).unwrap();
    }
    assert_eq!(handed_out, regions(&["us-east-1", "us-west-2"]));
}
