use layercomp::layers::{get_dir_contents, get_layers, parse_layer, DirEntry, LayersError};
use layercomp::naming::{format_decimal, output_file_name};
use layercomp::permutations::get_permutations;
use layercomp::render::make_selections;

fn dir(name: &str) -> DirEntry {
    DirEntry { name: name.to_string(), is_dir: true }
}

fn file(name: &str) -> DirEntry {
    DirEntry { name: name.to_string(), is_dir: false }
}

#[test]
fn parse_layer_splits_prefix_and_name() {
    let layer = parse_layer(&"0003hat".to_string()).unwrap();
    assert_eq!(layer.index, 3);
    assert_eq!(layer.name, "hat");
    assert_eq!(layer.dir_name, "0003hat");
}

#[test]
fn parse_layer_allows_empty_display_name() {
    let layer = parse_layer(&"0042".to_string()).unwrap();
    assert_eq!(layer.index, 42);
    assert_eq!(layer.name, "");
}

#[test]
fn parse_layer_rejects_short_name() {
    assert!(matches!(parse_layer(&"12".to_string()), Err(LayersError::MalformedLayerName)));
}

#[test]
fn parse_layer_rejects_non_digit_prefix() {
    assert!(matches!(parse_layer(&"00x1hat".to_string()), Err(LayersError::MalformedLayerName)));
    assert!(matches!(parse_layer(&"hats".to_string()), Err(LayersError::MalformedLayerName)));
}

#[test]
fn parse_layer_rejects_prefix_beyond_index_range() {
    assert!(matches!(parse_layer(&"0300hat".to_string()), Err(LayersError::MalformedLayerName)));
    assert!(matches!(parse_layer(&"9999hat".to_string()), Err(LayersError::MalformedLayerName)));
    assert!(parse_layer(&"0255hat".to_string()).is_ok());
}

#[test]
fn get_layers_sorts_by_parsed_index() {
    let entries = vec![dir("0010hat"), dir("0002body"), dir("0001background")];
    let layers = get_layers(&entries).unwrap();
    assert_eq!(layers, vec!["0001background", "0002body", "0010hat"]);
}

#[test]
fn get_layers_counts_only_subdirectories() {
    let entries = vec![dir("0002b"), file("stray.txt"), dir("0001a"), file("notes")];
    let layers = get_layers(&entries).unwrap();
    assert_eq!(layers.len(), 2);
    assert_eq!(layers, vec!["0001a", "0002b"]);
}

#[test]
fn get_layers_keeps_enumeration_order_on_equal_indexes() {
    let entries = vec![dir("0001b"), dir("0001a"), dir("0001c")];
    let layers = get_layers(&entries).unwrap();
    assert_eq!(layers, vec!["0001b", "0001a", "0001c"]);
}

#[test]
fn get_layers_rejects_malformed_subdirectory() {
    let entries = vec![dir("0001ok"), dir("bad")];
    assert_eq!(get_layers(&entries), Err(LayersError::MalformedLayerName));
}

#[test]
fn get_layers_ignores_malformed_file_names() {
    let entries = vec![dir("0001ok"), file("bad")];
    assert_eq!(get_layers(&entries).unwrap(), vec!["0001ok"]);
}

#[test]
fn get_dir_contents_lists_files_in_order() {
    let entries = vec![file("a.png"), dir("nested"), file("b.png")];
    assert_eq!(get_dir_contents(&entries), vec!["a.png", "b.png"]);
}

#[test]
fn permutations_of_two_layers() {
    let options = vec![
        vec!["a.png".to_string(), "b.png".to_string()],
        vec!["x.png".to_string()],
    ];
    let permutations = get_permutations(&Vec::new(), &options);
    assert_eq!(
        permutations,
        vec![
            vec!["a.png".to_string(), "x.png".to_string()],
            vec!["b.png".to_string(), "x.png".to_string()],
        ]
    );
}

#[test]
fn permutation_count_is_product_of_option_counts() {
    let options = vec![
        vec!["a".to_string(), "b".to_string(), "c".to_string()],
        vec!["x".to_string(), "y".to_string()],
        vec!["1".to_string(), "2".to_string()],
    ];
    let permutations = get_permutations(&Vec::new(), &options);
    assert_eq!(permutations.len(), 12);
    for permutation in &permutations {
        assert_eq!(permutation.len(), 3);
    }
}

#[test]
fn permutations_order_varies_last_layer_fastest() {
    let options = vec![
        vec!["a".to_string(), "b".to_string()],
        vec!["x".to_string(), "y".to_string()],
    ];
    let permutations = get_permutations(&Vec::new(), &options);
    assert_eq!(
        permutations,
        vec![
            vec!["a".to_string(), "x".to_string()],
            vec!["a".to_string(), "y".to_string()],
            vec!["b".to_string(), "x".to_string()],
            vec!["b".to_string(), "y".to_string()],
        ]
    );
}

#[test]
fn single_layer_with_no_options_yields_no_permutations() {
    let options: Vec<Vec<String>> = vec![Vec::new()];
    let permutations = get_permutations(&Vec::new(), &options);
    assert_eq!(permutations.len(), 0);
}

#[test]
fn any_empty_layer_collapses_the_product() {
    let options = vec![vec!["a".to_string()], Vec::new(), vec!["x".to_string()]];
    let permutations = get_permutations(&Vec::new(), &options);
    assert_eq!(permutations.len(), 0);
}

#[test]
fn zero_layers_yield_one_empty_permutation() {
    let options: Vec<Vec<String>> = Vec::new();
    let permutations = get_permutations(&Vec::new(), &options);
    assert_eq!(permutations, vec![Vec::<String>::new()]);
}

#[test]
fn make_selections_pairs_layers_with_choices() {
    let layers = vec!["0001bg".to_string(), "0002fg".to_string()];
    let permutation = vec!["a.png".to_string(), "x.png".to_string()];
    let selections = make_selections(&layers, &permutation);
    assert_eq!(selections.len(), 2);
    assert_eq!(selections[0].layer, "0001bg");
    assert_eq!(selections[0].filename, "a.png");
    assert_eq!(selections[1].layer, "0002fg");
    assert_eq!(selections[1].filename, "x.png");
}

#[test]
fn output_names_are_ordinal_and_extension() {
    assert_eq!(output_file_name(0), "0.png");
    assert_eq!(output_file_name(7), "7.png");
    assert_eq!(output_file_name(120), "120.png");
}

#[test]
fn decimal_formatting_matches_expected_values() {
    assert_eq!(format_decimal(0), "0");
    assert_eq!(format_decimal(10), "10");
    assert_eq!(format_decimal(1234), "1234");
    assert_eq!(format_decimal(1000000), "1000000");
}
