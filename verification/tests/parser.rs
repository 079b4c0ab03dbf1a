use mir_analyzer::parser::find_preceding_docblock;

#[test]
fn plain_docblock_immediately_before_offset() {
    let src = "<?php\n/** @var Post $model */\n$x = 1;\n";
    let offset = src.find("$x").unwrap() as u32;
    assert_eq!(
        find_preceding_docblock(src, offset),
        Some("/** @var Post $model */".to_string())
    );
}

#[test]
fn docblock_survives_a_split_php_html_block() {
    let src = "<?php\nclass Post { public string $title = ''; }\n\
               /** @var Post $model */\n?>\n<div>\n<?php if ($model->title !== ''): ?>\n";
    let offset = src.rfind("if (").unwrap() as u32;
    assert_eq!(
        find_preceding_docblock(src, offset),
        Some("/** @var Post $model */".to_string())
    );
}

#[test]
fn docblock_survives_a_split_block_via_short_echo_reopen() {
    let src = "<?php\n/** @var Post $model */\n?>\n<div>\n<?= $model->title ?>\n";
    let offset = src.rfind("$model->title").unwrap() as u32;
    assert_eq!(
        find_preceding_docblock(src, offset),
        Some("/** @var Post $model */".to_string())
    );
}

/// A re-opening `<?php` with no preceding `?>` is the file's very first
/// tag, not a split block — there's nothing to skip past, and (since
/// nothing precedes it) no docblock to find either.
#[test]
fn leading_reopen_tag_with_no_prior_close_finds_nothing() {
    let src = "<?php\n$x = 1;\n";
    let offset = src.find("$x").unwrap() as u32;
    assert_eq!(find_preceding_docblock(src, offset), None);
}

/// Guards against treating unrelated HTML/PHP alternation as a docblock
/// boundary when there genuinely is no docblock to find.
#[test]
fn split_block_with_no_docblock_finds_nothing() {
    let src = "<?php\n$unrelated = 1;\n?>\n<div>\n<?php $x = 1;\n";
    let offset = src.rfind("$x").unwrap() as u32;
    assert_eq!(find_preceding_docblock(src, offset), None);
}

#[test]
fn modifier_keywords_still_skip_after_a_split_block() {
    // Not a realistic PHP construct (a docblock + modifier can't
    // actually precede a re-opening tag), but exercises that the two
    // skip loops compose without infinite-looping or misordering.
    let src = "<?php\n/** doc */\nfinal\n?>\n<?php\n";
    let offset = src.len() as u32;
    assert_eq!(
        find_preceding_docblock(src, offset),
        Some("/** doc */".to_string())
    );
}

#[test]
fn modifiers_between_docblock_and_declaration_are_skipped() {
    let src = "<?php\n/** Doc */\nabstract readonly class A {}\n";
    let offset = src.find("class").unwrap() as u32;
    assert_eq!(find_preceding_docblock(src, offset), Some("/** Doc */".to_string()));
}

#[test]
fn plain_block_comment_is_the_fallback() {
    let src = "<?php\n/* @var int $n */\n$n = f();\n";
    let offset = src.find("$n =").unwrap() as u32;
    assert_eq!(find_preceding_docblock(src, offset), Some("/* @var int $n */".to_string()));
}

#[test]
fn offset_past_the_end_and_zero() {
    let src = "<?php /** a */";
    assert_eq!(find_preceding_docblock(src, 1000), Some("/** a */".to_string()));
    assert_eq!(find_preceding_docblock(src, 0), None);
}

#[test]
fn non_ascii_text_before_the_docblock() {
    let src = "<?php\n// é ü\n/** Größe */\nfinal class Ä {}";
    let offset = src.find("class").unwrap() as u32;
    assert_eq!(find_preceding_docblock(src, offset), Some("/** Größe */".to_string()));
}
