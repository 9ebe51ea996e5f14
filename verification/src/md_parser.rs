//! A small Markdown renderer: headers, flat lists, fenced code and
//! paragraphs. Anything it does not recognise is kept as literal text, so
//! rendering never fails.
//!
//! The input is cut into blocks at blank lines. Each block is rendered line
//! by line by a machine with three states, and the blocks' HTML is joined in
//! order. A list or a code container that is still open where its block ends
//! stays open: no closing tag is added.

use crate::text::{
    find, first_match, lemma_split_without_match, same_text, split, split_on, substring, texts,
    to_chars,
};
use vstd::prelude::*;

verus! {

/// What the renderer is inside of while it walks the lines of one block.
#[derive(Clone, Copy, PartialEq, Eq, Debug, Structural)]
pub enum Block {
    Root,
    Code,
    List,
}

/// The first space-delimited token of a line.
pub open spec fn first_token(line: Seq<char>) -> Seq<char> {
    line.take(first_match(line, " "@))
}

/// The text of a line after its first space-delimited token, the separating
/// space included.
pub open spec fn tail_of(line: Seq<char>) -> Seq<char> {
    line.skip(first_match(line, " "@))
}

/// The text of a line after its first token and the one space that ends it.
pub open spec fn title_of(line: Seq<char>) -> Seq<char> {
    let tail = tail_of(line);
    if tail.len() > 0 {
        tail.skip(1)
    } else {
        tail
    }
}

/// A line read as a header: the first token must be exactly `#`, `##` or
/// `###`; any other line is kept as it is.
pub open spec fn header_html(line: Seq<char>) -> Seq<char> {
    let token = first_token(line);
    if token == "#"@ {
        "<h1>"@ + title_of(line) + "</h1>"@
    } else if token == "##"@ {
        "<h2>"@ + title_of(line) + "</h2>"@
    } else if token == "###"@ {
        "<h3>"@ + title_of(line) + "</h3>"@
    } else {
        line
    }
}

/// A line outside lists and code: a line that holds `#` is read as a header,
/// any other line is a paragraph.
pub open spec fn line_html(line: Seq<char>) -> Seq<char> {
    if line.contains('#') {
        header_html(line)
    } else {
        "<p>"@ + line + "</p>"@
    }
}

/// Whether a line opens a list item.
pub open spec fn is_item(line: Seq<char>) -> bool {
    line.len() > 0 && line[0] == '-'
}

/// Whether a line is the fence that opens or closes a code container.
pub open spec fn is_fence(line: Seq<char>) -> bool {
    line == "```"@
}

/// The state after `line` was read in `state`.
pub open spec fn next_block(state: Block, line: Seq<char>) -> Block {
    if line.len() == 0 {
        state
    } else if state == Block::Code {
        if is_fence(line) {
            Block::Root
        } else {
            Block::Code
        }
    } else if is_item(line) {
        Block::List
    } else if is_fence(line) {
        Block::Code
    } else {
        Block::Root
    }
}

/// The HTML that reading `line` in `state` emits.
pub open spec fn line_output(state: Block, line: Seq<char>) -> Seq<char> {
    if line.len() == 0 {
        Seq::empty()
    } else if state == Block::Code {
        if is_fence(line) {
            "</div>"@
        } else {
            line + "</br>"@
        }
    } else if is_item(line) {
        let open = if state == Block::List {
            Seq::empty()
        } else {
            "<ul>"@
        };
        open + "<li>"@ + tail_of(line) + "</li>"@
    } else {
        let close = if state == Block::List {
            "</ul>"@
        } else {
            Seq::empty()
        };
        if is_fence(line) {
            close + "<div class=\"code\">"@
        } else {
            close + line_html(line)
        }
    }
}

/// The HTML of a run of lines read from `state` on.
pub open spec fn lines_html(state: Block, lines: Seq<Seq<char>>) -> Seq<char>
    decreases lines.len(),
{
    if lines.len() == 0 {
        Seq::empty()
    } else {
        line_output(state, lines[0]) + lines_html(next_block(state, lines[0]), lines.skip(1))
    }
}

/// The HTML of one block: its lines read from `Block::Root` on.
pub open spec fn block_html(block: Seq<char>) -> Seq<char> {
    lines_html(Block::Root, split_on(block, "\n"@))
}

/// The HTML of a run of blocks, joined in order.
pub open spec fn blocks_html(blocks: Seq<Seq<char>>) -> Seq<char>
    decreases blocks.len(),
{
    if blocks.len() == 0 {
        Seq::empty()
    } else {
        block_html(blocks[0]) + blocks_html(blocks.skip(1))
    }
}

/// The HTML of a whole document: its blank-line-delimited blocks, each
/// rendered on its own.
pub open spec fn markdown_html(markdown: Seq<char>) -> Seq<char> {
    blocks_html(split_on(markdown, "\n\n"@))
}

/// Whether a text is one line with nothing in it that the renderer reads as
/// markup: not empty, without a line break or a `#`, not begun by a dash,
/// and not the fence.
pub open spec fn is_plain(text: Seq<char>) -> bool {
    &&& text.len() > 0
    &&& !text.contains('\n')
    &&& !text.contains('#')
    &&& !is_item(text)
    &&& !is_fence(text)
}

/// Plain text is rendered as exactly one paragraph around the unchanged
/// text.
pub proof fn lemma_plain_text_is_one_paragraph(text: Seq<char>)
    requires
        is_plain(text),
    ensures
        markdown_html(text) == "<p>"@ + text + "</p>"@,
{
    reveal_strlit("\n");
    reveal_strlit("\n\n");
    lemma_split_without_match(text, "\n\n"@);
    lemma_split_without_match(text, "\n"@);
    let lines = seq![text];
    assert(lines_html(Block::Root, lines.skip(1)) =~= Seq::<char>::empty());
    assert(blocks_html(lines.skip(1)) =~= Seq::<char>::empty());
}

/// Renders a whole Markdown document as HTML.
pub fn parse_md(markdown: String) -> (html: String)
    ensures
        html@ == markdown_html(markdown@),
        is_plain(markdown@) ==> html@ == "<p>"@ + markdown@ + "</p>"@,
{
    proof {
        if is_plain(markdown@) {
            lemma_plain_text_is_one_paragraph(markdown@);
        }
    }
    let blocks = split(markdown.as_str(), "\n\n");
    let mut html = String::new();
    let mut i: usize = 0;
    assert(texts(blocks@).skip(0) =~= texts(blocks@));
    while i < blocks.len()
        invariant
            i <= blocks.len(),
            markdown_html(markdown@) == html@ + blocks_html(texts(blocks@).skip(i as int)),
        decreases blocks.len() - i,
    {
        let ghost rest = texts(blocks@).skip(i as int);
        let parsed_block = parse_block(blocks[i].as_str());
        html.append(parsed_block.as_str());
        assert(rest.skip(1) =~= texts(blocks@).skip(i + 1));
        i += 1;
    }
    html
}

/// Renders one block: a run of lines without a blank line between them.
pub fn parse_block(block: &str) -> (parsed_block: String)
    ensures
        parsed_block@ == block_html(block@),
{
    let fragments = split(block, "\n");
    let mut parsed_block = String::new();
    let mut current_block = Block::Root;
    let mut i: usize = 0;
    assert(texts(fragments@).skip(0) =~= texts(fragments@));
    while i < fragments.len()
        invariant
            i <= fragments.len(),
            block_html(block@) == parsed_block@ + lines_html(
                current_block,
                texts(fragments@).skip(i as int),
            ),
        decreases fragments.len() - i,
    {
        let ghost rest = texts(fragments@).skip(i as int);
        let fragment = fragments[i].as_str();
        assert(rest.skip(1) =~= texts(fragments@).skip(i + 1));
        if fragment.is_empty() {
            // An empty line changes nothing.
        } else if current_block == Block::Code {
            // Inside code every line but the fence is kept as it is.
            if same_text(fragment, "```") {
                current_block = Block::Root;
                parsed_block.append("</div>");
            } else {
                parsed_block.append(fragment);
                parsed_block.append("</br>");
            }
        } else if fragment.get_char(0) == '-' {
            // A dash opens a list, or goes on with the one that is open.
            if current_block != Block::List {
                parsed_block.append("<ul>");
                current_block = Block::List;
            }
            let text = get_tail(fragment);
            parsed_block.append("<li>");
            parsed_block.append(text.as_str());
            parsed_block.append("</li>");
        } else {
            if current_block == Block::List {
                parsed_block.append("</ul>");
                current_block = Block::Root;
            }
            if same_text(fragment, "```") {
                current_block = Block::Code;
                parsed_block.append("<div class=\"code\">");
            } else {
                parsed_block.append(parse_line(fragment).as_str());
            }
        }
        i += 1;
    }
    parsed_block
}

/// Renders one line that stands outside lists and code.
pub fn parse_line(line: &str) -> (parsed_line: String)
    ensures
        parsed_line@ == line_html(line@),
{
    let chars = to_chars(line);
    let mut i: usize = 0;
    while i < chars.len()
        invariant
            i <= chars.len(),
            chars@ == line@,
            forall|k: int| 0 <= k < i ==> line@[k] != '#',
        decreases chars.len() - i,
    {
        if chars[i] == '#' {
            return parse_header(line);
        }
        i += 1;
    }
    let mut parsed_line = String::from_str("<p>");
    parsed_line.append(line);
    parsed_line.append("</p>");
    parsed_line
}

/// Reads a line as a header, and hands the line back where it is none.
pub fn parse_header(line: &str) -> (header: String)
    ensures
        header@ == header_html(line@),
{
    let chars = to_chars(line);
    let space = to_chars(" ");
    let end = find(&chars, &space, 0);
    assert(chars@.skip(0) =~= line@);
    let first = substring(&chars, 0, end);
    let title = if end < chars.len() {
        substring(&chars, end + 1, chars.len())
    } else {
        String::new()
    };
    let tag = if same_text(first.as_str(), "#") {
        ("<h1>", "</h1>")
    } else if same_text(first.as_str(), "##") {
        ("<h2>", "</h2>")
    } else if same_text(first.as_str(), "###") {
        ("<h3>", "</h3>")
    } else {
        return String::from_str(line);
    };
    let mut header = String::from_str(tag.0);
    header.append(title.as_str());
    header.append(tag.1);
    header
}

/// The text of a line after its first space-delimited token, with the space
/// that ends the token.
pub fn get_tail(line: &str) -> (tail: String)
    ensures
        tail@ == tail_of(line@),
{
    let chars = to_chars(line);
    let space = to_chars(" ");
    let end = find(&chars, &space, 0);
    assert(chars@.skip(0) =~= line@);
    substring(&chars, end, chars.len())
}

} // verus!
