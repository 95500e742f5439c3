//! Recognising footnote labels on a line of bytes.

use vstd::prelude::*;

verus! {

/// The byte `\`.
pub const BACKSLASH: u8 = 0x5c;

/// The byte `[`.
pub const OPEN_BRACKET: u8 = 0x5b;

/// The byte `]`.
pub const CLOSE_BRACKET: u8 = 0x5d;

/// The byte `^`.
pub const CARET: u8 = 0x5e;

/// The byte `!`.
pub const BANG: u8 = 0x21;

/// The byte `:`.
pub const COLON: u8 = 0x3a;

/// Scanning `line` from `cur`, the position of the first `]` that is not
/// escaped as `\]`. `None` when there is no such `]`, and also when a `\`
/// stands as the last byte of the line before one is found.
pub open spec fn label_close_from(line: Seq<u8>, cur: int) -> Option<int>
    decreases line.len() - cur,
{
    if cur < 0 || cur >= line.len() {
        None
    } else if line[cur] == BACKSLASH {
        if cur + 1 >= line.len() {
            None
        } else if line[cur + 1] == CLOSE_BRACKET {
            label_close_from(line, cur + 2)
        } else {
            label_close_from(line, cur + 1)
        }
    } else if line[cur] == CLOSE_BRACKET {
        Some(cur)
    } else {
        label_close_from(line, cur + 1)
    }
}

/// Every position that `label_close_from` finds holds a `]` and lies
/// inside the line, at or after where the scan started.
pub proof fn lemma_label_close_in_line(line: Seq<u8>, cur: int)
    ensures
        label_close_from(line, cur) matches Some(c) ==> cur <= c < line.len() && line[c]
            == CLOSE_BRACKET,
    decreases line.len() - cur,
{
    if 0 <= cur < line.len() {
        if line[cur] == BACKSLASH {
            if cur + 1 < line.len() {
                if line[cur + 1] == CLOSE_BRACKET {
                    lemma_label_close_in_line(line, cur + 2);
                } else {
                    lemma_label_close_in_line(line, cur + 1);
                }
            }
        } else if line[cur] != CLOSE_BRACKET {
            lemma_label_close_in_line(line, cur + 1);
        }
    }
}

/// Finds the `]` that closes a label whose text starts at `open`.
pub fn find_label_close(line: &[u8], open: usize) -> (res: Option<usize>)
    ensures
        match res {
            Some(c) => label_close_from(line@, open as int) == Some(c as int),
            None => label_close_from(line@, open as int) is None,
        },
{
    let mut cur = open;
    while cur < line.len()
        invariant
            open <= cur,
            label_close_from(line@, open as int) == label_close_from(line@, cur as int),
        decreases line.len() - cur,
    {
        let c = line[cur];
        if c == BACKSLASH {
            if cur + 1 >= line.len() {
                return None;
            }
            if line[cur + 1] == CLOSE_BRACKET {
                cur = cur + 2;
                continue;
            }
        } else if c == CLOSE_BRACKET {
            return Some(cur);
        }
        cur = cur + 1;
    }
    None
}

} // verus!
