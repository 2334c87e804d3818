use interface::nav2_params::{docker_map_path, rewrite_nav2_params};

const PARAMS: &str = "amcl:\n  ros__parameters:\n    yaml_filename: \"keep\"\nmap_server:\n  ros__parameters:\n    use_sim_time: True\n    yaml_filename: \"old.yaml\"\nplanner_server:\n  ros__parameters:\n    yaml_filename: \"untouched\"\n";

#[test]
fn map_server_filename_is_replaced() {
    let out = rewrite_nav2_params(PARAMS, "room.yaml");
    let expected = "amcl:\n  ros__parameters:\n    yaml_filename: \"keep\"\nmap_server:\n  ros__parameters:\n    use_sim_time: True\n    yaml_filename: \"/workspace/src/navigation/maps/room.yaml\"\nplanner_server:\n  ros__parameters:\n    yaml_filename: \"untouched\"";
    assert_eq!(out, expected);
}

#[test]
fn rewrite_twice_is_rewrite_once() {
    let once = rewrite_nav2_params(PARAMS, "room.yaml");
    let twice = rewrite_nav2_params(&once, "room.yaml");
    assert_eq!(once, twice);
}

#[test]
fn line_count_kept_and_crlf_dropped() {
    let input = "a\r\nmap_server:\r\n  ros__parameters:\r\n\tyaml_filename: x\r\nb";
    let out = rewrite_nav2_params(input, "m.yaml");
    assert_eq!(out, "a\nmap_server:\n  ros__parameters:\n\tyaml_filename: \"/workspace/src/navigation/maps/m.yaml\"\nb");
    assert_eq!(out.lines().count(), input.lines().count());
}

#[test]
fn section_ends_at_unindented_line() {
    let input = "map_server:\nother:\n  ros__parameters:\n    yaml_filename: keep";
    assert_eq!(rewrite_nav2_params(input, "m.yaml"), input);
}

#[test]
fn filename_without_ros_parameters_is_kept() {
    let input = "map_server:\n  yaml_filename: keep\n";
    assert_eq!(rewrite_nav2_params(input, "m.yaml"), "map_server:\n  yaml_filename: keep");
}

#[test]
fn empty_file_stays_empty() {
    assert_eq!(rewrite_nav2_params("", "m.yaml"), "");
    assert_eq!(rewrite_nav2_params("\n", "m.yaml"), "");
}

#[test]
fn docker_path_of_map() {
    assert_eq!(docker_map_path("lab.yaml"), "/workspace/src/navigation/maps/lab.yaml");
}

#[test]
fn rewrite_of_text_is_stable_when_last_line_is_not_empty() {
    let input = "map_server:\n  ros__parameters:\n    yaml_filename: a\nnext: 1";
    let once = rewrite_nav2_params(input, "b.yaml");
    assert_eq!(rewrite_nav2_params(&once, "b.yaml"), once);
    let with_empty_last = "a\n\n";
    let once = rewrite_nav2_params(with_empty_last, "b.yaml");
    assert_eq!(once, "a\n");
    assert_eq!(rewrite_nav2_params(&once, "b.yaml"), "a");
}
