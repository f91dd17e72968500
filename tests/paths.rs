use super_pipe::paths::{conf_dir_in, join_path, pipe_idx_path, pipe_map_path, pipes_dir};

#[test]
fn pipes_dir_sits_under_the_config_dir() {
    assert_eq!(pipes_dir("/home/u/.config/super_pipe"), "/home/u/.config/super_pipe/pipes");
}

#[test]
fn index_files_are_toml_files_under_the_config_dir() {
    assert_eq!(pipe_map_path("/c/super_pipe"), "/c/super_pipe/files.toml");
    assert_eq!(pipe_idx_path("/c/super_pipe"), "/c/super_pipe/pipelines.toml");
}

#[test]
fn conf_dir_is_named_after_the_tool() {
    assert_eq!(conf_dir_in("/home/u/.config"), "/home/u/.config/super_pipe");
}

#[test]
fn join_adds_no_second_separator() {
    assert_eq!(join_path("/c/", "pipes"), "/c/pipes");
    assert_eq!(join_path("", "pipes"), "pipes");
    assert_eq!(join_path("/c", "pipes"), "/c/pipes");
}
