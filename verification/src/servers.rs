//! The server-selection scan.
//!
//! At the login prompt, the rolling history holds server-list entries of the
//! form `<index>-->...(<server name>)`, one per line. The scan walks the
//! history left to right, takes each entry in turn, and picks the first one
//! whose server name contains the target (or contains `All of them` when
//! the target is, up to ASCII case, `all`), defaulting to index `1`.

use vstd::prelude::*;

use crate::text::{
    contains_chars, sub_chars, eq_ignore_ascii_case, is_digit, spec_contains, spec_eq_ignore_ascii_case,
    spec_is_digit, to_chars,
};

verus! {

// --- spec: the entry grammar ---------------------------------------------

/// End of the digit run starting at `p`.
pub open spec fn digit_run_end(h: Seq<char>, p: int) -> int
    decreases h.len() - p,
    when 0 <= p <= h.len()
{
    if p >= h.len() {
        p
    } else if spec_is_digit(h[p]) {
        digit_run_end(h, p + 1)
    } else {
        p
    }
}

/// The digit run's end lies between `p` and the end of the text.
pub proof fn lemma_digit_run_end_bounds(h: Seq<char>, p: int)
    requires
        0 <= p <= h.len(),
    ensures
        p <= digit_run_end(h, p) <= h.len(),
    decreases h.len() - p,
{
    if p < h.len() && spec_is_digit(h[p]) {
        lemma_digit_run_end_bounds(h, p + 1);
    }
}

/// First position of `c` at or after `from` on the same line, or -1 when a
/// newline or the end of the text comes first.
pub open spec fn find_on_line(h: Seq<char>, from: int, c: char) -> int
    decreases h.len() - from,
    when 0 <= from <= h.len()
{
    if from >= h.len() {
        -1
    } else if h[from] == c {
        from
    } else if h[from] == '\n' {
        -1
    } else {
        find_on_line(h, from + 1, c)
    }
}

/// A found position lies between `from` and the end of the text.
pub proof fn lemma_find_on_line_bounds(h: Seq<char>, from: int, c: char)
    requires
        0 <= from <= h.len(),
    ensures
        find_on_line(h, from, c) == -1 || from <= find_on_line(h, from, c) < h.len(),
    decreases h.len() - from,
{
    if from < h.len() && h[from] != c && h[from] != '\n' {
        lemma_find_on_line_bounds(h, from + 1, c);
    }
}

/// The server-list entry starting at `p`, if one starts there: its index
/// digits, its server name, and the position the scan continues at.
pub open spec fn entry_at(h: Seq<char>, p: int) -> Option<(Seq<char>, Seq<char>, int)> {
    if !(0 <= p < h.len()) || !spec_is_digit(h[p]) {
        None
    } else {
        let j = digit_run_end(h, p);
        if j + 3 <= h.len() && h[j] == '-' && h[j + 1] == '-' && h[j + 2] == '>' {
            let t = find_on_line(h, j + 3, '(');
            if t >= 0 {
                let u = find_on_line(h, t + 1, ')');
                if u >= 0 {
                    Some((h.subrange(p, j), h.subrange(t + 1, u), u + 1))
                } else {
                    None
                }
            } else {
                None
            }
        } else {
            None
        }
    }
}

/// An entry's continue position lies strictly past its start.
pub proof fn lemma_entry_at_bounds(h: Seq<char>, p: int)
    ensures
        entry_at(h, p) matches Some(e) ==> p < e.2 <= h.len(),
{
    if entry_at(h, p) is Some {
        lemma_digit_run_end_bounds(h, p);
        let j = digit_run_end(h, p);
        lemma_find_on_line_bounds(h, j + 3, '(');
        let t = find_on_line(h, j + 3, '(');
        lemma_find_on_line_bounds(h, t + 1, ')');
    }
}

/// Whether an entry's server name satisfies the target: it contains the
/// target, or the target is `all` up to ASCII case and the name offers
/// `All of them`.
pub open spec fn spec_server_ok(server: Seq<char>, target: Seq<char>) -> bool {
    spec_contains(server, target) || (spec_eq_ignore_ascii_case(target, "all"@) && spec_contains(
        server,
        "All of them"@,
    ))
}

/// The index digits of the first satisfying entry at or after `p`.
pub open spec fn spec_scan_choice(h: Seq<char>, target: Seq<char>, p: int) -> Option<Seq<char>>
    decreases h.len() - p,
    when 0 <= p
{
    if p >= h.len() {
        None
    } else {
        match entry_at(h, p) {
            Some(e) => {
                if spec_server_ok(e.1, target) {
                    Some(e.0)
                } else {
                    proof {
                        lemma_entry_at_bounds(h, p);
                    }
                    spec_scan_choice(h, target, e.2)
                }
            },
            None => spec_scan_choice(h, target, p + 1),
        }
    }
}

/// The index the login answer carries: the first satisfying entry's digits,
/// or `1` when no entry satisfies the target.
pub open spec fn spec_choose_server(h: Seq<char>, target: Seq<char>) -> Seq<char> {
    match spec_scan_choice(h, target, 0) {
        Some(d) => d,
        None => seq!['1'],
    }
}

// --- exec ------------------------------------------------------------------

/// Exec mirror of `digit_run_end`.
fn run_end(h: &Vec<char>, p: usize) -> (r: usize)
    requires
        p <= h@.len(),
    ensures
        r as int == digit_run_end(h@, p as int),
        p <= r <= h@.len(),
    decreases h@.len() - p,
{
    if p < h.len() && is_digit(h[p]) {
        run_end(h, p + 1)
    } else {
        p
    }
}

/// Exec mirror of `find_on_line`.
fn find_char_on_line(h: &Vec<char>, from: usize, c: char) -> (r: Option<usize>)
    requires
        from <= h@.len(),
    ensures
        r matches Some(q) ==> q as int == find_on_line(h@, from as int, c) && from <= q
            < h@.len(),
        r is None ==> find_on_line(h@, from as int, c) == -1,
    decreases h@.len() - from,
{
    if from >= h.len() {
        None
    } else if h[from] == c {
        Some(from)
    } else if h[from] == '\n' {
        None
    } else {
        find_char_on_line(h, from + 1, c)
    }
}

/// Exec mirror of `spec_server_ok`.
fn server_ok(server: &Vec<char>, target: &Vec<char>) -> (r: bool)
    ensures
        r == spec_server_ok(server@, target@),
{
    if contains_chars(server, target) {
        return true;
    }
    let all = to_chars("all");
    if !eq_ignore_ascii_case(target, &all) {
        return false;
    }
    let aot = to_chars("All of them");
    contains_chars(server, &aot)
}

/// Exec mirror of `spec_scan_choice`.
fn scan_choice(h: &Vec<char>, target: &Vec<char>, p: usize) -> (r: Option<Vec<char>>)
    requires
        p <= h@.len(),
    ensures
        r matches Some(d) ==> spec_scan_choice(h@, target@, p as int) == Some(d@),
        r is None ==> spec_scan_choice(h@, target@, p as int) is None,
    decreases h@.len() - p,
{
    if p >= h.len() {
        return None;
    }
    if !is_digit(h[p]) {
        return scan_choice(h, target, p + 1);
    }
    let j = run_end(h, p);
    let rem = h.len() - j;
    if !(rem >= 3 && h[j] == '-' && h[j + 1] == '-' && h[j + 2] == '>') {
        proof {
            assert(entry_at(h@, p as int) is None);
        }
        return scan_choice(h, target, p + 1);
    }
    let t = match find_char_on_line(h, j + 3, '(') {
        Some(t) => t,
        None => {
            proof {
                assert(entry_at(h@, p as int) is None);
            }
            return scan_choice(h, target, p + 1);
        },
    };
    let u = match find_char_on_line(h, t + 1, ')') {
        Some(u) => u,
        None => {
            proof {
                assert(entry_at(h@, p as int) is None);
            }
            return scan_choice(h, target, p + 1);
        },
    };
    proof {
        assert(entry_at(h@, p as int) == Some(
            (h@.subrange(p as int, j as int), h@.subrange(t + 1, u as int), u + 1 as int),
        ));
    }
    let server = sub_chars(h, t + 1, u);
    if server_ok(&server, target) {
        Some(sub_chars(h, p, j))
    } else {
        scan_choice(h, target, u + 1)
    }
}

/// The login answer for a target server: the index of the first entry in
/// the history whose server name satisfies the target, or `1` when none
/// does.
pub fn choose_server_index(history: &Vec<char>, target: &Vec<char>) -> (r: Vec<char>)
    ensures
        r@ == spec_choose_server(history@, target@),
{
    match scan_choice(history, target, 0) {
        Some(d) => d,
        None => {
            let one = vec!['1'];
            proof {
                assert(one@ =~= seq!['1']);
            }
            one
        },
    }
}

} // verus!
