use kdlgen::{document, Configuration};

fn base_conf() -> Configuration {
    Configuration {
        depth_max: 2,
        nodes_per_child_max: 3,
        extra_space_max: 2,
        props_or_args_max: 3,
        blank_lines_max: 1,
        identifier_len_max: 6,
        string_len_max: 8,
        num_len_max: 4,
        comment_len_max: 6,
        nesting_max: 2,
        debug: false,
        ascii_only: true,
        rand_seed: None,
    }
}

#[test]
fn same_seed_byte_identical_ascii() {
    let conf = base_conf();
    let a = document(&conf, 7);
    let b = document(&conf, 7);
    assert_eq!(a, b);
    let conf2 = base_conf();
    let c = document(&conf2, 7);
    assert_eq!(a, c);
}

#[test]
fn same_seed_byte_identical_unicode() {
    let mut conf = base_conf();
    conf.ascii_only = false;
    let a = document(&conf, 9);
    let b = document(&conf, 9);
    assert_eq!(a, b);
}

#[test]
fn different_seeds_differ_somewhere() {
    let conf = base_conf();
    let mut outputs: Vec<String> = Vec::new();
    for seed in 1..6u64 {
        outputs.push(document(&conf, seed));
    }
    let first = outputs[0].clone();
    assert!(outputs.iter().any(|o| *o != first));
}

#[test]
fn ascii_mode_output_is_ascii() {
    let conf = base_conf();
    for seed in 0..20u64 {
        let doc = document(&conf, seed);
        for b in doc.as_bytes() {
            assert!(*b < 0x80);
        }
    }
}

#[test]
fn ascii_mode_unicode_variant_has_high_bytes_sometimes() {
    let mut conf = base_conf();
    conf.ascii_only = false;
    let mut saw_high = false;
    for seed in 0..20u64 {
        let doc = document(&conf, seed);
        if doc.as_bytes().iter().any(|b| *b >= 0x80) {
            saw_high = true;
        }
    }
    assert!(saw_high);
}

#[test]
fn ascii_mode_braces_balanced() {
    let conf = base_conf();
    for seed in 0..20u64 {
        let doc = document(&conf, seed);
        let mut depth: i64 = 0;
        for b in doc.as_bytes() {
            if *b == b'{' {
                depth += 1;
            } else if *b == b'}' {
                depth -= 1;
            }
            assert!(depth >= 0);
        }
        assert_eq!(depth, 0);
    }
}

#[test]
fn depth_zero_children_blocks_stay_empty() {
    let mut conf = base_conf();
    conf.depth_max = 0;
    conf.nodes_per_child_max = 1;
    for seed in 0..30u64 {
        let doc = document(&conf, seed);
        let bytes = doc.as_bytes();
        for i in 0..bytes.len() {
            if bytes[i] == b'{' {
                // A code-point escape spells `u{...}`; every child block
                // at the depth bound must close at once.
                if i > 0 && bytes[i - 1] == b'u' {
                    continue;
                }
                assert!(i + 1 < bytes.len());
                assert_eq!(bytes[i + 1], b'}');
            }
        }
    }
}

#[test]
fn zero_length_strings_render_minimal_seed42() {
    let mut conf = base_conf();
    conf.string_len_max = 0;
    for seed in [42u64, 0, 1, 2, 3, 11] {
        let doc = document(&conf, seed);
        let bytes = doc.as_bytes();
        let mut quotes = 0usize;
        for i in 0..bytes.len() {
            if bytes[i] == b'"' {
                quotes += 1;
                let left = i > 0 && bytes[i - 1] == b'"';
                let right = i + 1 < bytes.len() && bytes[i + 1] == b'"';
                assert!(left || right);
            }
        }
        assert_eq!(quotes % 2, 0);
    }
}

#[test]
fn props_zero_no_properties_or_values() {
    let mut conf = base_conf();
    conf.props_or_args_max = 0;
    for seed in 0..30u64 {
        let doc = document(&conf, seed);
        assert!(!doc.contains('='));
        assert!(!doc.contains("true"));
        assert!(!doc.contains("false"));
        assert!(!doc.contains("null"));
    }
}

#[test]
fn debug_markers_paired() {
    let mut conf = base_conf();
    conf.debug = true;
    for seed in 0..10u64 {
        let doc = document(&conf, seed);
        let nodes_open = doc.matches("<NODES>").count();
        let nodes_close = doc.matches("</NODES>").count();
        assert!(nodes_open >= 1);
        assert_eq!(nodes_open, nodes_close);
        assert_eq!(doc.matches("<NODE>").count(), doc.matches("</NODE>").count());
        assert_eq!(
            doc.matches("<IDENTIFIER>").count(),
            doc.matches("</IDENTIFIER>").count()
        );
        assert_eq!(doc.matches("<WS>").count(), doc.matches("</WS>").count());
    }
}

#[test]
fn minimal_bounds_still_generate() {
    let conf = Configuration {
        depth_max: 0,
        nodes_per_child_max: 0,
        extra_space_max: 1,
        props_or_args_max: 0,
        blank_lines_max: 0,
        identifier_len_max: 1,
        string_len_max: 0,
        num_len_max: 0,
        comment_len_max: 0,
        nesting_max: 0,
        debug: false,
        ascii_only: true,
        rand_seed: None,
    };
    let a = document(&conf, 5);
    let b = document(&conf, 5);
    assert_eq!(a, b);
    for byte in a.as_bytes() {
        assert!(*byte < 0x80);
    }
}

#[test]
fn unicode_mode_runs_and_reproduces() {
    let mut conf = base_conf();
    conf.ascii_only = false;
    conf.debug = false;
    for seed in 0..8u64 {
        let a = document(&conf, seed);
        let b = document(&conf, seed);
        assert_eq!(a, b);
    }
}
