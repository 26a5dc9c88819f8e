use mcdougs::screen::{
    blank_line, detail_line, line_of, plain_line_of, visible_offset, wrapped_document_height, Tone,
};

#[test]
fn wrapped_document_height_counts_wrapped_lines() {
    let lines = vec![
        plain_line_of("short"),
        plain_line_of("this line wraps"),
    ];

    assert_eq!(wrapped_document_height(&lines, 80), 2);
    assert_eq!(wrapped_document_height(&lines, 5), 4);
}

#[test]
fn heights_of_documents_add_up_and_shrink_with_the_width() {
    let first = || vec![line_of("a line".to_string(), Tone::Plain), detail_line("Bid", "$5")];
    let second = || vec![plain_line_of("")];
    let both: Vec<_> = first().into_iter().chain(second()).collect();
    let heights: Vec<usize> = (0..9).map(|w| wrapped_document_height(&both, w)).collect();
    assert_eq!(heights, vec![14, 14, 8, 6, 5, 5, 4, 3, 3]);
    for width in 0..9 {
        assert_eq!(
            wrapped_document_height(&both, width),
            wrapped_document_height(&first(), width) + wrapped_document_height(&second(), width)
        );
    }
    assert_eq!(wrapped_document_height(&vec![], 4), 0);
}

#[test]
fn blank_lines_take_a_row() {
    let lines = vec![blank_line(), detail_line("Bid", "$5")];
    assert_eq!(wrapped_document_height(&lines, 0), 8);
    assert_eq!(lines[1].spans[0].text, "Bid: ");
    assert_eq!(lines[1].spans[1].text, "$5");
}

#[test]
fn the_selected_row_stays_visible() {
    assert_eq!(visible_offset(0, 3, 5), 0);
    assert_eq!(visible_offset(0, 7, 5), 3);
    assert_eq!(visible_offset(6, 2, 5), 2);
    assert_eq!(visible_offset(6, 2, 0), 2);
    assert_eq!(visible_offset(usize::MAX, usize::MAX, 2), usize::MAX - 2);
}

#[test]
fn line_breaks_are_left_out_of_plain_lines() {
    for text in ["", "a", "\n", "ab\ncd", "ab\r\ncd\r", "a\n\nb\n", "\r\n\r\n", "a\rb\r\r\n"] {
        let parts: Vec<String> =
            plain_line_of(text).spans.into_iter().map(|span| span.text).collect();
        assert_eq!(parts, text.lines().map(str::to_string).collect::<Vec<_>>());
    }
    assert_eq!(wrapped_document_height(&vec![plain_line_of("ab\ncd")], 4), 1);
    assert_eq!(wrapped_document_height(&vec![line_of("ab\ncd".to_string(), Tone::Title)], 4), 2);
}
