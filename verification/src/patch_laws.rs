//! What holds of the language of patches, said of its lines and of what they say.

use vstd::prelude::*;

use crate::error;
use crate::numbers;
use crate::parser;
use crate::parser::Verb;
use crate::patch;
use crate::text;
use crate::text_laws;

verus! {

// ---------------------------------------------------------------------------
// Headers
// ---------------------------------------------------------------------------

/// The words that start a header, as characters.
proof fn lemma_verbs()
    ensures
        "create "@ == seq!['c', 'r', 'e', 'a', 't', 'e', ' '],
        "write "@ == seq!['w', 'r', 'i', 't', 'e', ' '],
        "update "@ == seq!['u', 'p', 'd', 'a', 't', 'e', ' '],
        "delete "@ == seq!['d', 'e', 'l', 'e', 't', 'e', ' '],
        "read "@ == seq!['r', 'e', 'a', 'd', ' '],
        "view "@ == seq!['v', 'i', 'e', 'w', ' '],
        "map "@ == seq!['m', 'a', 'p', ' '],
        "move "@ == seq!['m', 'o', 'v', 'e', ' '],
{
    reveal_strlit("create ");
    reveal_strlit("write ");
    reveal_strlit("update ");
    reveal_strlit("delete ");
    reveal_strlit("read ");
    reveal_strlit("view ");
    reveal_strlit("map ");
    reveal_strlit("move ");
    assert("create "@ =~= seq!['c', 'r', 'e', 'a', 't', 'e', ' ']);
    assert("write "@ =~= seq!['w', 'r', 'i', 't', 'e', ' ']);
    assert("update "@ =~= seq!['u', 'p', 'd', 'a', 't', 'e', ' ']);
    assert("delete "@ =~= seq!['d', 'e', 'l', 'e', 't', 'e', ' ']);
    assert("read "@ =~= seq!['r', 'e', 'a', 'd', ' ']);
    assert("view "@ =~= seq!['v', 'i', 'e', 'w', ' ']);
    assert("map "@ =~= seq!['m', 'a', 'p', ' ']);
    assert("move "@ =~= seq!['m', 'o', 'v', 'e', ' ']);
}

/// A line that has another character at its start, or at the place behind it, starts otherwise.
proof fn lemma_not_verb(line: Seq<char>, p: Seq<char>)
    requires
        p.len() > 1,
        line.len() < 2 || line[0] != p[0] || line[1] != p[1],
    ensures
        text::strip_prefix(line, p) is None,
{
    if line.len() == 0 || line[0] != p[0] {
        text_laws::law_ends_differ(line, p, 0);
    } else {
        text_laws::law_ends_differ(line, p, 1);
    }
}

/// Which lines are headers: those that start with one of eight words and a space. What is behind
/// the space is what the header says.
pub proof fn law_headers(rest: Seq<char>)
    ensures
        parser::header_parts("create "@ + rest) == Some((Verb::Create, rest)),
        parser::header_parts("write "@ + rest) == Some((Verb::Write, rest)),
        parser::header_parts("update "@ + rest) == Some((Verb::Update, rest)),
        parser::header_parts("delete "@ + rest) == Some((Verb::Delete, rest)),
        parser::header_parts("read "@ + rest) == Some((Verb::Read, rest)),
        parser::header_parts("view "@ + rest) == Some((Verb::Read, rest)),
        parser::header_parts("map "@ + rest) == Some((Verb::MapDir, rest)),
        parser::header_parts("move "@ + rest) == Some((Verb::Move, rest)),
{
    lemma_verbs();
    let all = seq![
        "create "@,
        "write "@,
        "update "@,
        "delete "@,
        "read "@,
        "view "@,
        "map "@,
        "move "@,
    ];
    assert forall|i: int, j: int| 0 <= i < all.len() && 0 <= j < all.len() && i != j implies (
    #[trigger] text::strip_prefix(all[i] + rest, all[j])) is None by {
        assert(all[i][0] != all[j][0] || all[i][1] != all[j][1]);
        assert((all[i] + rest)[0] == all[i][0] && (all[i] + rest)[1] == all[i][1]);
        lemma_not_verb(all[i] + rest, all[j]);
    }
    assert forall|i: int| 0 <= i < all.len() implies text::strip_prefix(
        #[trigger] all[i] + rest,
        all[i],
    ) == Some(rest) by {
        text_laws::law_ends(all[i], rest);
    }
    lemma_header_of(all, rest);
}

/// The verbs, given what starts with what.
proof fn lemma_header_of(all: Seq<Seq<char>>, rest: Seq<char>)
    requires
        all == seq![
            "create "@,
            "write "@,
            "update "@,
            "delete "@,
            "read "@,
            "view "@,
            "map "@,
            "move "@,
        ],
        forall|i: int, j: int|
            0 <= i < all.len() && 0 <= j < all.len() && i != j ==> (#[trigger] text::strip_prefix(
                all[i] + rest,
                all[j],
            )) is None,
        forall|i: int|
            0 <= i < all.len() ==> text::strip_prefix(#[trigger] all[i] + rest, all[i]) == Some(
                rest,
            ),
    ensures
        parser::header_parts("create "@ + rest) == Some((Verb::Create, rest)),
        parser::header_parts("write "@ + rest) == Some((Verb::Write, rest)),
        parser::header_parts("update "@ + rest) == Some((Verb::Update, rest)),
        parser::header_parts("delete "@ + rest) == Some((Verb::Delete, rest)),
        parser::header_parts("read "@ + rest) == Some((Verb::Read, rest)),
        parser::header_parts("view "@ + rest) == Some((Verb::Read, rest)),
        parser::header_parts("map "@ + rest) == Some((Verb::MapDir, rest)),
        parser::header_parts("move "@ + rest) == Some((Verb::Move, rest)),
{
    assert(all[0] == "create "@ && all[1] == "write "@ && all[2] == "update "@ && all[3]
        == "delete "@ && all[4] == "read "@ && all[5] == "view "@ && all[6] == "map "@ && all[7]
        == "move "@);
    assert(text::strip_prefix(all[1] + rest, all[0]) is None);
    assert(text::strip_prefix(all[2] + rest, all[0]) is None);
    assert(text::strip_prefix(all[2] + rest, all[1]) is None);
    assert(text::strip_prefix(all[3] + rest, all[0]) is None);
    assert(text::strip_prefix(all[3] + rest, all[1]) is None);
    assert(text::strip_prefix(all[3] + rest, all[2]) is None);
    assert(text::strip_prefix(all[4] + rest, all[0]) is None);
    assert(text::strip_prefix(all[4] + rest, all[1]) is None);
    assert(text::strip_prefix(all[4] + rest, all[2]) is None);
    assert(text::strip_prefix(all[4] + rest, all[3]) is None);
    assert(text::strip_prefix(all[5] + rest, all[0]) is None);
    assert(text::strip_prefix(all[5] + rest, all[1]) is None);
    assert(text::strip_prefix(all[5] + rest, all[2]) is None);
    assert(text::strip_prefix(all[5] + rest, all[3]) is None);
    assert(text::strip_prefix(all[5] + rest, all[4]) is None);
    assert(text::strip_prefix(all[6] + rest, all[0]) is None);
    assert(text::strip_prefix(all[6] + rest, all[1]) is None);
    assert(text::strip_prefix(all[6] + rest, all[2]) is None);
    assert(text::strip_prefix(all[6] + rest, all[3]) is None);
    assert(text::strip_prefix(all[6] + rest, all[4]) is None);
    assert(text::strip_prefix(all[6] + rest, all[5]) is None);
    assert(text::strip_prefix(all[7] + rest, all[0]) is None);
    assert(text::strip_prefix(all[7] + rest, all[1]) is None);
    assert(text::strip_prefix(all[7] + rest, all[2]) is None);
    assert(text::strip_prefix(all[7] + rest, all[3]) is None);
    assert(text::strip_prefix(all[7] + rest, all[4]) is None);
    assert(text::strip_prefix(all[7] + rest, all[5]) is None);
    assert(text::strip_prefix(all[7] + rest, all[6]) is None);
}

/// No other line is a header.
pub proof fn law_no_header(line: Seq<char>)
    requires
        line.len() < 2 || !(line[0] == 'c' || line[0] == 'w' || line[0] == 'u' || line[0] == 'd'
            || line[0] == 'r' || line[0] == 'v' || line[0] == 'm') || line[1] == ' ',
    ensures
        !parser::is_header(line),
{
    lemma_verbs();
    lemma_not_verb(line, "create "@);
    lemma_not_verb(line, "write "@);
    lemma_not_verb(line, "update "@);
    lemma_not_verb(line, "delete "@);
    lemma_not_verb(line, "read "@);
    lemma_not_verb(line, "view "@);
    lemma_not_verb(line, "map "@);
    lemma_not_verb(line, "move "@);
}

// ---------------------------------------------------------------------------
// New files
// ---------------------------------------------------------------------------

/// Lines with their ends are the pieces that their text is split into.
proof fn lemma_ended_lines(lines: Seq<Seq<char>>)
    requires
        lines.len() > 0,
        forall|i: int| 0 <= i < lines.len() ==> !(#[trigger] lines[i]).contains('\n'),
    ensures
        text::split(text::join(lines, "\n"@) + "\n"@, '\n') == lines.push(Seq::empty()),
{
    reveal_strlit("\n");
    assert("\n"@ =~= seq!['\n']);
    let all = lines.push(Seq::empty());
    assert forall|i: int| 0 <= i < all.len() implies !(#[trigger] all[i]).contains('\n') by {
        if i < lines.len() {
            assert(all[i] == lines[i]);
        }
    }
    text::law_split_of_join(all, '\n');
    assert(all.drop_last() =~= lines);
    assert(text::join(all, seq!['\n']) =~= text::join(lines, "\n"@) + "\n"@);
}

/// The content that a header for a new file, or for one that is written anew, gives to it.
pub open spec fn content_of(op: Result<patch::FileOpView, error::PatchErrorView>) -> Seq<char> {
    match op {
        Ok(patch::FileOpView::Add { content, .. }) => content,
        Ok(patch::FileOpView::Write { content, .. }) => content,
        _ => Seq::empty(),
    }
}

/// Where not every line under the header of a new file starts with a plus sign, the file is exactly
/// these lines, each ended with a line feed: split at its line feeds, it gives the lines back.
pub proof fn law_bare_lines_are_the_file(path: Seq<char>, section: Seq<Seq<char>>, i: int)
    requires
        0 <= i < section.len(),
        section[i].len() == 0 || section[i][0] != '+',
        section.last().len() > 0,
        forall|j: int| 0 <= j < section.len() ==> !(#[trigger] section[j]).contains('\n'),
    ensures
        parser::operation("create "@ + path, section) matches Ok(patch::FileOpView::Add {
            path: p,
            content,
        }) && p == text::trim(path) && text::split(content, '\n') == section.push(Seq::empty()),
        parser::operation("write "@ + path, section) matches Ok(patch::FileOpView::Write {
            path: p,
            content,
        }) && p == text::trim(path) && text::split(content, '\n') == section.push(Seq::empty()),
{
    law_headers(path);
    reveal_strlit("+");
    text_laws::law_ends_differ(section[i], "+"@, 0);
    assert(!parser::all_added(section));
    assert(parser::without_last_blanks(section) == section);
    lemma_ended_lines(section);
}

/// Where every line under the header of a new file starts with a plus sign, the file is what is
/// behind the signs, each line ended with a line feed.
pub proof fn law_marked_lines_are_the_file(path: Seq<char>, lines: Seq<Seq<char>>)
    requires
        lines.len() > 0,
        forall|j: int| 0 <= j < lines.len() ==> !(#[trigger] lines[j]).contains('\n'),
    ensures
        ({
            let section = lines.map_values(|l: Seq<char>| seq!['+'] + l);
            &&& parser::operation("create "@ + path, section) matches Ok(patch::FileOpView::Add {
                path: p,
                content,
            }) && p == text::trim(path) && text::split(content, '\n') == lines.push(Seq::empty())
            &&& parser::operation("write "@ + path, section) matches Ok(
                patch::FileOpView::Write { path: p, content },
            ) && p == text::trim(path) && text::split(content, '\n') == lines.push(Seq::empty())
        }),
{
    law_headers(path);
    reveal_strlit("+");
    assert("+"@ =~= seq!['+']);
    let section = lines.map_values(|l: Seq<char>| seq!['+'] + l);
    assert(section.last() == seq!['+'] + lines.last());
    assert(parser::without_last_blanks(section) == section);
    assert forall|i: int| 0 <= i < section.len() implies text::starts_with(
        #[trigger] section[i],
        "+"@,
    ) by {
        text_laws::law_ends("+"@, lines[i]);
    }
    assert forall|i: int| 0 <= i < lines.len() implies #[trigger] section[i].skip(1)
        == lines[i] by {
        assert(section[i].skip(1) =~= lines[i]);
    }
    assert(section.map_values(|l: Seq<char>| l.skip(1)) =~= lines);
    lemma_ended_lines(lines);
}

/// Empty lines at the end of a section are no lines of the file, and a section without lines gives
/// an empty file.
pub proof fn law_last_blanks_go(path: Seq<char>, section: Seq<Seq<char>>)
    ensures
        parser::operation("create "@ + path, section.push(Seq::empty())) == parser::operation(
            "create "@ + path,
            section,
        ),
        parser::operation("write "@ + path, section.push(Seq::empty())) == parser::operation(
            "write "@ + path,
            section,
        ),
        content_of(parser::operation("create "@ + path, Seq::empty())).len() == 0,
        content_of(parser::operation("write "@ + path, Seq::empty())).len() == 0,
{
    law_headers(path);
    assert(section.push(Seq::empty()).drop_last() =~= section);
}

// ---------------------------------------------------------------------------
// Deleting and moving
// ---------------------------------------------------------------------------

/// What deleting says, and what moving says: two paths, from the first to the second.
pub proof fn law_delete_and_move(
    path: Seq<char>,
    sp: Seq<char>,
    from: Seq<char>,
    mid: Seq<char>,
    to: Seq<char>,
    section: Seq<Seq<char>>,
)
    requires
        text_laws::blank(sp),
        text_laws::blank(mid),
        mid.len() > 0,
        from.len() > 0,
        to.len() > 0,
        text_laws::solid(from),
        text_laws::solid(to),
    ensures
        parser::operation("delete "@ + path, section) == Ok::<
            patch::FileOpView,
            error::PatchErrorView,
        >(patch::FileOpView::Delete { path: text::trim(path) }),
        parser::operation("move "@ + (sp + from + (mid + to)), section) == Ok::<
            patch::FileOpView,
            error::PatchErrorView,
        >(patch::FileOpView::Move { from, to }),
        parser::operation("move "@ + (sp + from), section) is Err,
        parser::operation("move "@ + sp, section) is Err,
        parser::operation("read "@ + sp, section) is Err,
        parser::operation("map "@ + sp, section) is Err,
{
    law_headers(path);
    law_headers(sp + from + (mid + to));
    law_headers(sp + from);
    law_headers(sp);
    let none = Seq::<char>::empty();
    assert((mid + to)[0] == mid[0]);
    text_laws::law_words(sp, from, mid + to);
    text_laws::law_words(mid, to, none);
    text_laws::law_words(none, to, none);
    text_laws::law_words(sp, from, none);
    assert(mid + to + none =~= mid + to);
    assert(sp + from + none =~= sp + from);
    let words = text::words(sp + from + (mid + to));
    assert(words =~= seq![from, to]);
    assert(text::words(sp + from) =~= seq![from]);
}

// ---------------------------------------------------------------------------
// Settings
// ---------------------------------------------------------------------------

/// The names of settings, as characters.
proof fn lemma_keys()
    ensures
        "symbols="@ == seq!['s', 'y', 'm', 'b', 'o', 'l', 's', '='],
        "language="@ == seq!['l', 'a', 'n', 'g', 'u', 'a', 'g', 'e', '='],
        "offset="@ == seq!['o', 'f', 'f', 's', 'e', 't', '='],
        "limit="@ == seq!['l', 'i', 'm', 'i', 't', '='],
        "start="@ == seq!['s', 't', 'a', 'r', 't', '='],
        "end="@ == seq!['e', 'n', 'd', '='],
        "depth="@ == seq!['d', 'e', 'p', 't', 'h', '='],
{
    reveal_strlit("symbols=");
    reveal_strlit("language=");
    reveal_strlit("offset=");
    reveal_strlit("limit=");
    reveal_strlit("start=");
    reveal_strlit("end=");
    reveal_strlit("depth=");
    assert("symbols="@ =~= seq!['s', 'y', 'm', 'b', 'o', 'l', 's', '=']);
    assert("language="@ =~= seq!['l', 'a', 'n', 'g', 'u', 'a', 'g', 'e', '=']);
    assert("offset="@ =~= seq!['o', 'f', 'f', 's', 'e', 't', '=']);
    assert("limit="@ =~= seq!['l', 'i', 'm', 'i', 't', '=']);
    assert("start="@ =~= seq!['s', 't', 'a', 'r', 't', '=']);
    assert("end="@ =~= seq!['e', 'n', 'd', '=']);
    assert("depth="@ =~= seq!['d', 'e', 'p', 't', 'h', '=']);
}

/// The digits of a number write it down.
pub proof fn law_digits(n: nat)
    ensures
        numbers::decimal(n).len() > 0,
        numbers::all_digits(numbers::decimal(n)),
        numbers::value(numbers::decimal(n)) == n,
        n >= 10 <==> numbers::decimal(n).len() > 1,
        numbers::decimal(n).len() > 1 ==> numbers::decimal(n)[0] != '0',
    decreases n,
{
    if n >= 10 {
        law_digits(n / 10);
        let d = numbers::decimal(n);
        assert(d.drop_last() =~= numbers::decimal(n / 10));
        assert(d[0] == numbers::decimal(n / 10)[0]);
        if n / 10 < 10 {
            assert(numbers::decimal(n / 10) == seq![numbers::digit(n / 10)]);
        }
        assert forall|i: int| 0 <= i < d.len() implies numbers::is_digit(#[trigger] d[i]) by {
            if i < d.len() - 1 {
                assert(d[i] == numbers::decimal(n / 10)[i]);
            }
        }
    } else {
        assert(numbers::decimal(n).drop_last() =~= Seq::<char>::empty());
        reveal_with_fuel(numbers::value, 2);
    }
}

/// A number that is written down is read back, with a plus sign or without, and nothing but digits
/// is read as a number.
pub proof fn law_number_is_read(n: usize, s: Seq<char>, i: int)
    ensures
        numbers::parse_number(numbers::decimal(n as nat)) == Some(n),
        numbers::parse_number(seq!['+'] + numbers::decimal(n as nat)) == Some(n),
        0 < i < s.len() && !('0' <= s[i] <= '9') ==> numbers::parse_number(s) is None,
        s.len() > 0 && s[0] != '+' && !('0' <= s[0] <= '9') ==> numbers::parse_number(s) is None,
        s.len() == 0 ==> numbers::parse_number(s) is None,
{
    law_digits(n as nat);
    let d = numbers::decimal(n as nat);
    assert(numbers::is_digit(d[0]));
    assert((seq!['+'] + d).skip(1) =~= d);
    let u = numbers::unsigned_part(s);
    if 0 < i < s.len() && !('0' <= s[i] <= '9') {
        if s[0] == '+' {
            assert(u[i - 1] == s[i]);
        } else {
            assert(u[i] == s[i]);
        }
    }
    if s.len() > 0 && s[0] != '+' {
        assert(u[0] == s[0]);
    }
}

/// A word behind others changes only the setting that it names.
proof fn lemma_setting(words: Seq<Seq<char>>, w: Seq<char>, key: Seq<char>, k: int)
    requires
        0 <= k <= words.len(),
    ensures
        parser::setting(words.push(w), key, k) == parser::setting(words, key, k),
        parser::number_setting(words.push(w), key, k) == parser::number_setting(words, key, k),
    decreases k,
{
    if k > 0 {
        lemma_setting(words, w, key, k - 1);
        assert(words.push(w)[k - 1] == words[k - 1]);
    }
}

/// What a word behind others does to a setting.
proof fn lemma_set(words: Seq<Seq<char>>, w: Seq<char>, key: Seq<char>)
    ensures
        ({
            let all = words.push(w);
            let (n, m) = (words.len() as int, words.len() as int + 1);
            match text::strip_prefix(w, key) {
                Some(v) => {
                    &&& parser::setting(all, key, m) == Some(v)
                    &&& parser::number_setting(all, key, m) == (if numbers::parse_number(
                        v,
                    ) is Some {
                        numbers::parse_number(v)
                    } else {
                        parser::number_setting(words, key, n)
                    })
                },
                None => {
                    &&& parser::setting(all, key, m) == parser::setting(words, key, n)
                    &&& parser::number_setting(all, key, m) == parser::number_setting(
                        words,
                        key,
                        n,
                    )
                },
            }
        }),
{
    lemma_setting(words, w, key, words.len() as int);
    assert(words.push(w)[words.len() as int] == w);
}

/// A word that sets one thing sets no other.
proof fn lemma_other_keys(key: Seq<char>, v: Seq<char>, other: Seq<char>)
    requires
        key.len() > 1,
        other.len() > 1,
        key[0] != other[0] || key[1] != other[1],
    ensures
        text::strip_prefix(key + v, other) is None,
        text::strip_prefix(key + v, key) == Some(v),
{
    assert((key + v)[0] == key[0] && (key + v)[1] == key[1]);
    lemma_not_verb(key + v, other);
    text_laws::law_ends(key, v);
}

/// Whether no word sets the first or the last line.
pub open spec fn without_range(words: Seq<Seq<char>>) -> bool {
    let params = words.skip(1);
    &&& parser::number_setting(params, "start="@, params.len() as int) is None
    &&& parser::number_setting(params, "end="@, params.len() as int) is None
}

/// The settings of a reading operation: each sets what it names and nothing else, the last one
/// counting. An offset is the number of lines before the first, and a limit the most lines.
#[verifier::spinoff_prover]
#[verifier::rlimit(60)]
pub proof fn law_read_settings(words: Seq<Seq<char>>, n: usize, v: Seq<char>)
    requires
        words.len() > 0,
    ensures
        parser::read_spec(words).path == words[0],
        without_range(words) ==> parser::read_spec(
            words.push("offset="@ + numbers::decimal(n as nat)),
        ) == (parser::ReadView { offset: Some(n), ..parser::read_spec(words) }),
        without_range(words) ==> parser::read_spec(
            words.push("limit="@ + numbers::decimal(n as nat)),
        ) == (parser::ReadView { limit: Some(n), ..parser::read_spec(words) }),
        parser::read_spec(words.push("symbols="@ + v)) == (parser::ReadView {
            symbols: Some(text::split(v, ',')),
            ..parser::read_spec(words)
        }),
        parser::read_spec(words.push("language="@ + v)) == (parser::ReadView {
            language: Some(v),
            ..parser::read_spec(words)
        }),
{
    lemma_keys();
    law_number_is_read(n, Seq::empty(), 0);
    let d = numbers::decimal(n as nat);
    lemma_read_word(words, "offset="@, d);
    lemma_read_word(words, "limit="@, d);
    lemma_read_word(words, "symbols="@, v);
    lemma_read_word(words, "language="@, v);
}

/// What a word behind others does to the settings of a reading operation.
proof fn lemma_read_word(words: Seq<Seq<char>>, key: Seq<char>, v: Seq<char>)
    requires
        words.len() > 0,
        key == "offset="@ || key == "limit="@ || key == "symbols="@ || key == "language="@ || key
            == "start="@ || key == "end="@,
    ensures
        ({
            let (p, q) = (words.skip(1), words.push(key + v).skip(1));
            let (n, m) = (p.len() as int, q.len() as int);
            &&& q == p.push(key + v)
            &&& words.push(key + v)[0] == words[0]
            &&& parser::number_setting(q, key, m) == (if numbers::parse_number(v) is Some {
                numbers::parse_number(v)
            } else {
                parser::number_setting(p, key, n)
            })
            &&& parser::setting(q, key, m) == Some(v)
            &&& key != "offset="@ ==> parser::number_setting(q, "offset="@, m)
                == parser::number_setting(p, "offset="@, n)
            &&& key != "limit="@ ==> parser::number_setting(q, "limit="@, m)
                == parser::number_setting(p, "limit="@, n)
            &&& key != "start="@ ==> parser::number_setting(q, "start="@, m)
                == parser::number_setting(p, "start="@, n)
            &&& key != "end="@ ==> parser::number_setting(q, "end="@, m)
                == parser::number_setting(p, "end="@, n)
            &&& key != "symbols="@ ==> parser::setting(q, "symbols="@, m) == parser::setting(
                p,
                "symbols="@,
                n,
            )
            &&& key != "language="@ ==> parser::setting(q, "language="@, m) == parser::setting(
                p,
                "language="@,
                n,
            )
        }),
{
    lemma_keys();
    let w = key + v;
    let (p, q) = (words.skip(1), words.push(w).skip(1));
    assert(q =~= p.push(w));
    text_laws::law_ends(key, v);
    lemma_set(p, w, key);
    lemma_set(p, w, "offset="@);
    lemma_set(p, w, "limit="@);
    lemma_set(p, w, "start="@);
    lemma_set(p, w, "end="@);
    lemma_set(p, w, "symbols="@);
    lemma_set(p, w, "language="@);
    if key != "offset="@ {
        lemma_other_keys(key, v, "offset="@);
    }
    if key != "limit="@ {
        lemma_other_keys(key, v, "limit="@);
    }
    if key != "start="@ {
        lemma_other_keys(key, v, "start="@);
    }
    if key != "end="@ {
        lemma_other_keys(key, v, "end="@);
    }
    if key != "symbols="@ {
        lemma_other_keys(key, v, "symbols="@);
    }
    if key != "language="@ {
        lemma_other_keys(key, v, "language="@);
    }
}

/// A first and a last line, from one, say which lines are read: those before the first are left
/// out, and as many are read as there are from the first to the last. From a first line on without
/// a last one, all are read. They count for more than an offset and a limit.
#[verifier::spinoff_prover]
#[verifier::rlimit(60)]
pub proof fn law_read_range(words: Seq<Seq<char>>, first: usize, last: usize)
    requires
        words.len() > 0,
        without_range(words),
        1 <= first <= last,
    ensures
        ({
            let from = words.push("start="@ + numbers::decimal(first as nat));
            let both = from.push("end="@ + numbers::decimal(last as nat));
            let upto = words.push("end="@ + numbers::decimal(last as nat));
            let plain = parser::read_spec(words);
            &&& parser::read_spec(both) == (parser::ReadView {
                offset: Some((first - 1) as usize),
                limit: Some((last - first + 1) as usize),
                ..plain
            })
            &&& plain.limit is None ==> parser::read_spec(from) == (parser::ReadView {
                offset: Some((first - 1) as usize),
                limit: Some(usize::MAX),
                ..plain
            })
            &&& plain.limit is Some ==> parser::read_spec(from) == (parser::ReadView {
                offset: Some((first - 1) as usize),
                ..plain
            })
            &&& plain.offset is None ==> parser::read_spec(upto) == (parser::ReadView {
                limit: Some(last),
                ..plain
            })
        }),
{
    lemma_keys();
    law_number_is_read(first, Seq::empty(), 0);
    law_number_is_read(last, Seq::empty(), 0);
    let (a, b) = (numbers::decimal(first as nat), numbers::decimal(last as nat));
    lemma_read_word(words, "start="@, a);
    lemma_read_word(words.push("start="@ + a), "end="@, b);
    lemma_read_word(words, "end="@, b);
}

/// The settings of a mapping operation.
#[verifier::spinoff_prover]
#[verifier::rlimit(60)]
pub proof fn law_map_settings(words: Seq<Seq<char>>, n: usize)
    requires
        words.len() > 0,
    ensures
        parser::map_spec(words).path == words[0],
        parser::map_spec(words.push("depth="@ + numbers::decimal(n as nat))) == (parser::MapView {
            depth: Some(n),
            ..parser::map_spec(words)
        }),
        parser::map_spec(words.push("limit="@ + numbers::decimal(n as nat))) == (parser::MapView {
            output_limit: Some(n),
            ..parser::map_spec(words)
        }),
        parser::map_spec(seq![words[0]]) == (parser::MapView {
            path: words[0],
            depth: None,
            output_limit: None,
        }),
{
    lemma_keys();
    law_number_is_read(n, Seq::empty(), 0);
    let d = numbers::decimal(n as nat);
    let p = words.skip(1);
    let (x, y) = ("depth="@ + d, "limit="@ + d);
    assert(words.push(x).skip(1) =~= p.push(x));
    assert(words.push(y).skip(1) =~= p.push(y));
    lemma_set(p, x, "depth="@);
    lemma_set(p, x, "limit="@);
    lemma_set(p, y, "depth="@);
    lemma_set(p, y, "limit="@);
    lemma_other_keys("depth="@, d, "limit="@);
    lemma_other_keys("limit="@, d, "depth="@);
    assert(seq![words[0]].skip(1).len() == 0);
}

// ---------------------------------------------------------------------------
// Updates
// ---------------------------------------------------------------------------

/// The marks of the lines of hunks, as characters.
proof fn lemma_marks()
    ensures
        "  -"@ == seq![' ', ' ', '-'],
        "  +"@ == seq![' ', ' ', '+'],
        "-"@ == seq!['-'],
        "+"@ == seq!['+'],
        "  "@ == seq![' ', ' '],
        " "@ == seq![' '],
        "|"@ == seq!['|'],
        "@@"@ == seq!['@', '@'],
        "move_to "@ == seq!['m', 'o', 'v', 'e', '_', 't', 'o', ' '],
        "*** End of File"@.len() == 15,
        "*** End of File"@[0] == '*',
        "*** End of File"@[14] == 'e',
{
    reveal_strlit("  -");
    reveal_strlit("  +");
    reveal_strlit("-");
    reveal_strlit("+");
    reveal_strlit("  ");
    reveal_strlit(" ");
    reveal_strlit("|");
    reveal_strlit("@@");
    reveal_strlit("move_to ");
    reveal_strlit("*** End of File");
    assert("  -"@ =~= seq![' ', ' ', '-']);
    assert("  +"@ =~= seq![' ', ' ', '+']);
    assert("-"@ =~= seq!['-']);
    assert("+"@ =~= seq!['+']);
    assert("  "@ =~= seq![' ', ' ']);
    assert(" "@ =~= seq![' ']);
    assert("|"@ =~= seq!['|']);
    assert("@@"@ =~= seq!['@', '@']);
    assert("move_to "@ =~= seq!['m', 'o', 'v', 'e', '_', 't', 'o', ' ']);
}

/// What the lines of a hunk say. A sign stands at the start or behind two spaces; a line that stays
/// is behind two spaces or one, or is a row of a table; any other line says nothing.
pub proof fn law_lines_of_hunks(x: Seq<char>)
    ensures
        parser::diff_line(seq!['+'] + x) == Some(patch::DiffLineView::Add(x)),
        parser::diff_line(seq!['-'] + x) == Some(patch::DiffLineView::Remove(x)),
        parser::diff_line(seq![' ', ' ', '+'] + x) == Some(patch::DiffLineView::Add(x)),
        parser::diff_line(seq![' ', ' ', '-'] + x) == Some(patch::DiffLineView::Remove(x)),
        x.len() == 0 || (x[0] != '+' && x[0] != '-') ==> parser::diff_line(seq![' ', ' '] + x)
            == Some(patch::DiffLineView::Context(x)),
        x.len() == 0 || x[0] != ' ' ==> parser::diff_line(seq![' '] + x) == Some(
            patch::DiffLineView::Context(x),
        ),
        parser::diff_line(seq!['|'] + x) == Some(patch::DiffLineView::Context(seq!['|'] + x)),
        x.len() == 0 || (x[0] != '+' && x[0] != '-' && x[0] != ' ' && x[0] != '|') ==> parser::diff_line(
            x,
        ) is None,
{
    lemma_marks();
    let a = seq!['+'] + x;
    text_laws::law_ends("+"@, x);
    text_laws::law_ends_differ(a, "  -"@, 0);
    text_laws::law_ends_differ(a, "  +"@, 0);
    text_laws::law_ends_differ(a, "-"@, 0);
    let r = seq!['-'] + x;
    text_laws::law_ends("-"@, x);
    text_laws::law_ends_differ(r, "  -"@, 0);
    text_laws::law_ends_differ(r, "  +"@, 0);
    let sa = seq![' ', ' ', '+'] + x;
    text_laws::law_ends("  +"@, x);
    text_laws::law_ends_differ(sa, "  -"@, 2);
    text_laws::law_ends("  -"@, x);
    let two = seq![' ', ' '] + x;
    text_laws::law_ends("  "@, x);
    text_laws::law_ends_differ(two, "-"@, 0);
    text_laws::law_ends_differ(two, "+"@, 0);
    if x.len() > 0 {
        assert(two[2] == x[0]);
    }
    if x.len() == 0 || (x[0] != '+' && x[0] != '-') {
        text_laws::law_ends_differ(two, "  -"@, 2);
        text_laws::law_ends_differ(two, "  +"@, 2);
    }
    let one = seq![' '] + x;
    text_laws::law_ends(" "@, x);
    text_laws::law_ends_differ(one, "-"@, 0);
    text_laws::law_ends_differ(one, "+"@, 0);
    if x.len() > 0 {
        assert(one[1] == x[0]);
    }
    if x.len() == 0 || x[0] != ' ' {
        text_laws::law_ends_differ(one, "  -"@, 1);
        text_laws::law_ends_differ(one, "  +"@, 1);
        text_laws::law_ends_differ(one, "  "@, 1);
    }
    let bar = seq!['|'] + x;
    lemma_no_mark(bar);
    text_laws::law_ends("|"@, x);
    if x.len() == 0 || (x[0] != '+' && x[0] != '-' && x[0] != ' ') {
        lemma_no_mark(x);
        if x.len() == 0 || x[0] != '|' {
            text_laws::law_ends_differ(x, "|"@, 0);
        }
    }
}

/// A line that starts with neither a sign nor a space.
proof fn lemma_no_mark(x: Seq<char>)
    requires
        x.len() == 0 || (x[0] != '+' && x[0] != '-' && x[0] != ' '),
    ensures
        text::strip_prefix(x, "  -"@) is None,
        text::strip_prefix(x, "  +"@) is None,
        text::strip_prefix(x, "-"@) is None,
        text::strip_prefix(x, "+"@) is None,
        text::strip_prefix(x, "  "@) is None,
        text::strip_prefix(x, " "@) is None,
{
    lemma_marks();
    text_laws::law_ends_differ(x, "  -"@, 0);
    text_laws::law_ends_differ(x, "  +"@, 0);
    text_laws::law_ends_differ(x, "-"@, 0);
    text_laws::law_ends_differ(x, "+"@, 0);
    text_laws::law_ends_differ(x, "  "@, 0);
    text_laws::law_ends_differ(x, " "@, 0);
}

/// Whether a line neither says where the file goes nor starts or ends a hunk.
pub open spec fn within_hunk(line: Seq<char>) -> bool {
    &&& !text::starts_with(line, "move_to "@)
    &&& text::trim(line) != "*** End of File"@
    &&& !text::starts_with(text::trim(line), "@@"@)
}

/// Whether the lines of a section are the lines of one hunk.
pub open spec fn lines_of_one_hunk(
    section: Seq<Seq<char>>,
    lines: Seq<patch::DiffLineView>,
) -> bool {
    &&& section.len() == lines.len()
    &&& forall|i: int|
        0 <= i < section.len() ==> within_hunk(section[i]) && parser::diff_line(
            #[trigger] section[i],
        ) == Some(lines[i])
}

/// The lines that a section has before others say what they say alone.
proof fn lemma_update_prefix(a: Seq<Seq<char>>, b: Seq<Seq<char>>, k: int)
    requires
        0 <= k <= a.len(),
    ensures
        parser::update_upto(a + b, k) == parser::update_upto(a, k),
    decreases k,
{
    if k > 0 {
        lemma_update_prefix(a, b, k - 1);
        assert((a + b)[k - 1] == a[k - 1]);
    }
}

/// The lines of a hunk behind those of a section that has come to a hunk.
proof fn lemma_hunk_lines(
    a: Seq<Seq<char>>,
    b: Seq<Seq<char>>,
    lines: Seq<patch::DiffLineView>,
    k: int,
)
    requires
        lines_of_one_hunk(b, lines),
        0 <= k <= b.len(),
    ensures
        ({
            let u = parser::update_upto(a, a.len() as int);
            let v = parser::update_upto(a + b, a.len() + k);
            &&& v.hunks == u.hunks
            &&& v.move_to == u.move_to
            &&& k == 0 ==> v.current == u.current
            &&& k > 0 ==> v.current == Some(
                patch::HunkView {
                    context_hint: match u.current {
                        Some(h) => h.context_hint,
                        None => None,
                    },
                    lines: match u.current {
                        Some(h) => h.lines + lines.take(k),
                        None => lines.take(k),
                    },
                },
            )
        }),
    decreases k,
{
    lemma_update_prefix(a, b, a.len() as int);
    if k > 0 {
        lemma_hunk_lines(a, b, lines, k - 1);
        let line = (a + b)[a.len() + k - 1];
        assert(line == b[k - 1]);
        assert(within_hunk(line) && parser::diff_line(line) == Some(lines[k - 1]));
        assert(lines.take(k) =~= lines.take(k - 1).push(lines[k - 1]));
        let u = parser::update_upto(a, a.len() as int);
        if let Some(h) = u.current {
            assert(h.lines + lines.take(k) =~= (h.lines + lines.take(k - 1)).push(lines[k - 1]));
            assert(h.lines + lines.take(0) =~= h.lines);
        } else {
            assert(lines.take(1) =~= seq![lines[0]]);
        }
    }
}

/// A section of signed lines alone is one hunk, with these lines in their order.
pub proof fn law_one_hunk(
    path: Seq<char>,
    section: Seq<Seq<char>>,
    lines: Seq<patch::DiffLineView>,
)
    requires
        section.len() > 0,
        lines_of_one_hunk(section, lines),
    ensures
        parser::operation("update "@ + path, section) == Ok::<
            patch::FileOpView,
            error::PatchErrorView,
        >(
            patch::FileOpView::Update {
                path: text::trim(path),
                hunks: seq![patch::HunkView { context_hint: None, lines }],
                move_to: None,
            },
        ),
{
    law_headers(path);
    let none = Seq::<Seq<char>>::empty();
    lemma_hunk_lines(none, section, lines, section.len() as int);
    assert(none + section =~= section);
    assert(lines.take(section.len() as int) =~= lines);
    let u = parser::update_upto(section, section.len() as int);
    assert(parser::flushed(u) =~= seq![patch::HunkView { context_hint: None, lines }]);
}

/// A line that starts with two at signs starts another hunk behind those before it, with what
/// follows the signs as its hint. A line that says that the file ends does so too, without a hint.
pub proof fn law_next_hunk(
    before: Seq<Seq<char>>,
    mark: Seq<char>,
    hint: Seq<char>,
    section: Seq<Seq<char>>,
    lines: Seq<patch::DiffLineView>,
)
    requires
        section.len() > 0,
        lines_of_one_hunk(section, lines),
        !text::starts_with(mark, "move_to "@),
        text::trim(mark) == "@@"@ + hint || (text::trim(mark) == "*** End of File"@ && hint.len()
            == 0),
    ensures
        ({
            let u = parser::update_upto(before, before.len() as int);
            let all = before.push(mark) + section;
            let v = parser::update_upto(all, all.len() as int);
            &&& v.move_to == u.move_to
            &&& parser::flushed(v) == parser::flushed(u).push(
                patch::HunkView {
                    context_hint: if text::trim(hint).len() == 0 {
                        None
                    } else {
                        Some(text::trim(hint))
                    },
                    lines,
                },
            )
        }),
{
    lemma_marks();
    let a = before.push(mark);
    lemma_update_prefix(before, seq![mark], before.len() as int);
    assert(before + seq![mark] =~= a);
    assert(a[before.len() as int] == mark);
    let u = parser::update_upto(before, before.len() as int);
    let w = parser::update_upto(a, a.len() as int);
    assert(w == parser::update_step(u, mark));
    text_laws::law_ends("@@"@, hint);
    if text::trim(mark) == "@@"@ + hint {
        assert(text::trim(mark)[0] == '@');
    }
    if hint.len() == 0 {
        assert(text::trim(hint).len() == 0);
    }
    lemma_hunk_lines(a, section, lines, section.len() as int);
    assert(lines.take(section.len() as int) =~= lines);
    let all = a + section;
    let v = parser::update_upto(all, all.len() as int);
    assert(Seq::<patch::DiffLineView>::empty() + lines =~= lines);
    assert(parser::flushed(w) == parser::flushed(w));
}

/// A line that says where the file goes says nothing else, and one that says nothing changes
/// nothing.
pub proof fn law_other_lines(before: Seq<Seq<char>>, to: Seq<char>, line: Seq<char>)
    requires
        within_hunk(line),
        parser::diff_line(line) is None,
    ensures
        ({
            let u = parser::update_upto(before, before.len() as int);
            let n = before.len() as int + 1;
            let moved = parser::update_upto(before.push("move_to "@ + to), n);
            &&& moved.move_to == Some(text::trim(to))
            &&& moved.hunks == u.hunks && moved.current == u.current
            &&& parser::update_upto(before.push(line), n) == u
        }),
{
    let m = "move_to "@ + to;
    text_laws::law_ends("move_to "@, to);
    lemma_update_prefix(before, seq![m], before.len() as int);
    lemma_update_prefix(before, seq![line], before.len() as int);
    assert(before + seq![m] =~= before.push(m));
    assert(before + seq![line] =~= before.push(line));
}

// ---------------------------------------------------------------------------
// Patches
// ---------------------------------------------------------------------------

/// The first header behind lines that are none.
proof fn lemma_next_header_at(lines: Seq<Seq<char>>, from: int, at: int)
    requires
        0 <= from <= at <= lines.len(),
        forall|i: int| from <= i < at ==> !parser::is_header(#[trigger] lines[i]),
        at < lines.len() ==> parser::is_header(lines[at]),
    ensures
        parser::next_header(lines, from) == at,
    decreases at - from,
{
    if from < at {
        lemma_next_header_at(lines, from + 1, at);
    }
}

/// The operations from a place on depend on the lines from there on alone.
proof fn lemma_operations_of_rest(front: Seq<Seq<char>>, rest: Seq<Seq<char>>, at: int)
    requires
        0 <= at <= rest.len(),
    ensures
        parser::operations(front + rest, front.len() + at) == parser::operations(rest, at),
    decreases rest.len() - at,
{
    if at < rest.len() {
        let all = front + rest;
        let n = front.len() as int;
        lemma_next_header_of_rest(front, rest, at + 1);
        parser::lemma_next_header(rest, at + 1);
        let next = parser::next_header(rest, at + 1);
        assert(all[n + at] == rest[at]);
        assert(all.subrange(n + at + 1, n + next) =~= rest.subrange(at + 1, next));
        lemma_operations_of_rest(front, rest, next);
    }
}

/// The next header depends on the lines from a place on alone.
proof fn lemma_next_header_of_rest(front: Seq<Seq<char>>, rest: Seq<Seq<char>>, at: int)
    requires
        0 <= at <= rest.len(),
    ensures
        parser::next_header(front + rest, front.len() + at) == front.len() + parser::next_header(
            rest,
            at,
        ),
    decreases rest.len() - at,
{
    if at < rest.len() {
        assert((front + rest)[front.len() + at] == rest[at]);
        lemma_next_header_of_rest(front, rest, at + 1);
    }
}

/// Operations follow one another: each has its header and the lines up to the next header, and they
/// come in the order in which they are written. The first that cannot be read stops the rest.
pub proof fn law_operations_in_order(
    header: Seq<char>,
    section: Seq<Seq<char>>,
    rest: Seq<Seq<char>>,
)
    requires
        forall|i: int| 0 <= i < section.len() ==> !parser::is_header(#[trigger] section[i]),
        rest.len() > 0 ==> parser::is_header(rest[0]),
    ensures
        ({
            let all = parser::operations(seq![header] + section + rest, 0);
            match parser::operation(header, section) {
                Err(e) => all == Err::<Seq<patch::FileOpView>, error::PatchErrorView>(e),
                Ok(op) => match parser::operations(rest, 0) {
                    Err(e) => all == Err::<Seq<patch::FileOpView>, error::PatchErrorView>(e),
                    Ok(ops) => all == Ok::<Seq<patch::FileOpView>, error::PatchErrorView>(
                        seq![op] + ops,
                    ),
                },
            }
        }),
{
    let front = seq![header] + section;
    let body = front + rest;
    let n = front.len() as int;
    assert forall|i: int| 1 <= i < n implies !parser::is_header(#[trigger] body[i]) by {
        assert(body[i] == section[i - 1]);
    }
    if rest.len() > 0 {
        assert(body[n] == rest[0]);
    }
    lemma_next_header_at(body, 1, n);
    assert(body[0] == header);
    assert(body.subrange(1, n) =~= section);
    lemma_operations_of_rest(front, rest, 0);
}

/// A patch is what stands between its first marker and the first end marker behind it. Lines before
/// its first header say nothing.
pub proof fn law_between_the_markers(
    before: Seq<Seq<char>>,
    first: Seq<char>,
    idle: Seq<Seq<char>>,
    body: Seq<Seq<char>>,
    last: Seq<char>,
    after: Seq<Seq<char>>,
)
    requires
        forall|i: int|
            0 <= i < before.len() ==> !parser::is_begin(#[trigger] before[i]) && !parser::is_end(
                before[i],
            ),
        parser::is_begin(first),
        !parser::is_end(first),
        forall|i: int|
            0 <= i < idle.len() ==> !parser::is_end(#[trigger] idle[i]) && !parser::is_header(
                idle[i],
            ),
        forall|i: int| 0 <= i < body.len() ==> !parser::is_end(#[trigger] body[i]),
        body.len() > 0 ==> parser::is_header(body[0]),
        parser::is_end(last),
    ensures
        ({
            let all = parser::parsed_lines(
                before + seq![first] + idle + body + seq![last] + after,
            );
            match parser::begin_threshold(first) {
                Err(e) => all == Err::<parser::ParseView, error::PatchErrorView>(e),
                Ok(threshold) => match parser::operations(body, 0) {
                    Err(e) => all == Err::<parser::ParseView, error::PatchErrorView>(e),
                    Ok(ops) => all == Ok::<parser::ParseView, error::PatchErrorView>(
                        parser::ParseView { ops, threshold },
                    ),
                },
            }
        }),
{
    let lines = before + seq![first] + idle + body + seq![last] + after;
    let b = before.len() as int;
    let inner = idle + body;
    let e = b + 1 + inner.len();
    assert(lines[b] == first);
    assert(lines[e] == last);
    assert forall|i: int| 0 <= i < b implies !parser::is_begin(#[trigger] lines[i]) by {
        assert(lines[i] == before[i]);
    }
    lemma_begin_at(lines, 0, b);
    assert forall|i: int| 0 <= i < e implies !parser::is_end(#[trigger] lines[i]) by {
        if i < b {
            assert(lines[i] == before[i]);
        } else if i > b {
            if i - b - 1 < idle.len() {
                assert(lines[i] == idle[i - b - 1]);
            } else {
                assert(lines[i] == body[i - b - 1 - idle.len()]);
            }
        }
    }
    lemma_end_at(lines, 0, e);
    assert(lines.subrange(b + 1, e) =~= inner);
    assert forall|i: int| 0 <= i < idle.len() implies !parser::is_header(#[trigger] inner[i]) by {
        assert(inner[i] == idle[i]);
    }
    if body.len() > 0 {
        assert(inner[idle.len() as int] == body[0]);
    }
    lemma_next_header_at(inner, 0, idle.len() as int);
    lemma_operations_of_rest(idle, body, 0);
}

/// Where the first marker is.
proof fn lemma_begin_at(lines: Seq<Seq<char>>, from: int, at: int)
    requires
        0 <= from <= at < lines.len(),
        forall|i: int| from <= i < at ==> !parser::is_begin(#[trigger] lines[i]),
        parser::is_begin(lines[at]),
    ensures
        parser::begin_index(lines, from) == Some(at),
    decreases at - from,
{
    if from < at {
        lemma_begin_at(lines, from + 1, at);
    }
}

/// Where the first end marker is.
proof fn lemma_end_at(lines: Seq<Seq<char>>, from: int, at: int)
    requires
        0 <= from <= at < lines.len(),
        forall|i: int| from <= i < at ==> !parser::is_end(#[trigger] lines[i]),
        parser::is_end(lines[at]),
    ensures
        parser::end_index(lines, from) == Some(at),
    decreases at - from,
{
    if from < at {
        lemma_end_at(lines, from + 1, at);
    }
}

/// An end marker before the first marker is refused, and so is a patch without either.
pub proof fn law_markers_in_order(lines: Seq<Seq<char>>, b: int, e: int)
    ensures
        !parser::any_begin(lines) || !parser::any_end(lines) ==> parser::parsed_lines(lines) is Err,
        0 <= e < b < lines.len() && parser::is_end(lines[e]) && (forall|i: int|
            0 <= i < b ==> !parser::is_begin(#[trigger] lines[i])) ==> parser::parsed_lines(lines)
            is Err,
{
    lemma_begin_found(lines, 0);
    lemma_end_found(lines, 0);
}

/// A first marker that is found is one.
proof fn lemma_begin_found(lines: Seq<Seq<char>>, from: int)
    requires
        0 <= from <= lines.len(),
    ensures
        parser::begin_index(lines, from) matches Some(k) ==> from <= k < lines.len()
            && parser::is_begin(lines[k]),
    decreases lines.len() - from,
{
    if from < lines.len() {
        lemma_begin_found(lines, from + 1);
    }
}

/// An end marker that is found is the first.
proof fn lemma_end_found(lines: Seq<Seq<char>>, from: int)
    requires
        0 <= from <= lines.len(),
    ensures
        parser::end_index(lines, from) matches Some(k) ==> from <= k < lines.len()
            && parser::is_end(lines[k]) && forall|i: int|
            from <= i < k ==> !parser::is_end(#[trigger] lines[i]),
    decreases lines.len() - from,
{
    if from < lines.len() {
        lemma_end_found(lines, from + 1);
    }
}

/// The lines of the native notation and what they are translated to.
pub proof fn law_native_lines(rest: Seq<char>, line: Seq<char>)
    ensures
        parser::from_native("*** Begin Patch"@) == "=== begin"@,
        parser::from_native("*** End Patch"@) == "=== end"@,
        parser::from_native("*** Add File: "@ + rest) == "create "@ + rest,
        parser::from_native("*** Update File: "@ + rest) == "update "@ + rest,
        parser::from_native("*** Delete File: "@ + rest) == "delete "@ + rest,
        parser::from_native("*** Read File: "@ + rest) == "read "@ + rest,
        parser::from_native("*** Move to: "@ + rest) == "move_to "@ + rest,
        line.len() > 0 && line[0] != '*' && !text::is_space(line[0]) ==> parser::from_native(line)
            == line,
{
    lemma_native_words();
    text_laws::law_ends("*** Add File: "@, rest);
    text_laws::law_ends("*** Update File: "@, rest);
    text_laws::law_ends("*** Delete File: "@, rest);
    text_laws::law_ends("*** Read File: "@, rest);
    text_laws::law_ends("*** Move to: "@, rest);
    lemma_native_start("*** Add File: "@, rest);
    lemma_native_start("*** Update File: "@, rest);
    lemma_native_start("*** Delete File: "@, rest);
    lemma_native_start("*** Read File: "@, rest);
    lemma_native_start("*** Move to: "@, rest);
    let none = Seq::<char>::empty();
    text_laws::law_trimmed(none, "*** Begin Patch"@, none);
    text_laws::law_trimmed(none, "*** End Patch"@, none);
    assert(none + "*** Begin Patch"@ + none =~= "*** Begin Patch"@);
    assert(none + "*** End Patch"@ + none =~= "*** End Patch"@);
    assert("*** Begin Patch"@[4] != "*** End Patch"@[4]);
    if line.len() > 0 && line[0] != '*' && !text::is_space(line[0]) {
        text_laws::law_ends_differ(line, "*** Add File: "@, 0);
        text_laws::law_ends_differ(line, "*** Update File: "@, 0);
        text_laws::law_ends_differ(line, "*** Delete File: "@, 0);
        text_laws::law_ends_differ(line, "*** Read File: "@, 0);
        text_laws::law_ends_differ(line, "*** Move to: "@, 0);
        text_laws::law_trimmed_end(line);
        let t = text::trim_end(line);
        assert(text::trim_start(line) == line);
        assert(t.len() > 0 ==> t[0] == line[0]);
    }
}

/// The words of the native notation, as far as they differ.
proof fn lemma_native_words()
    ensures
        "*** Add File: "@.len() > 4 && "*** Add File: "@[4] == 'A' && "*** Add File: "@[0] == '*',
        "*** Update File: "@.len() > 4 && "*** Update File: "@[4] == 'U' && "*** Update File: "@[0]
            == '*',
        "*** Delete File: "@.len() > 4 && "*** Delete File: "@[4] == 'D' && "*** Delete File: "@[0]
            == '*',
        "*** Read File: "@.len() > 4 && "*** Read File: "@[4] == 'R' && "*** Read File: "@[0] == '*',
        "*** Move to: "@.len() > 4 && "*** Move to: "@[4] == 'M' && "*** Move to: "@[0] == '*',
        "*** Begin Patch"@.len() == 15 && "*** Begin Patch"@[4] == 'B' && "*** Begin Patch"@[0]
            == '*' && "*** Begin Patch"@.last() == 'h',
        "*** End Patch"@.len() == 13 && "*** End Patch"@[4] == 'E' && "*** End Patch"@[0] == '*'
            && "*** End Patch"@.last() == 'h',
{
    reveal_strlit("*** Add File: ");
    reveal_strlit("*** Update File: ");
    reveal_strlit("*** Delete File: ");
    reveal_strlit("*** Read File: ");
    reveal_strlit("*** Move to: ");
    reveal_strlit("*** Begin Patch");
    reveal_strlit("*** End Patch");
}

/// A line of the native notation starts with one of its words alone.
proof fn lemma_native_start(p: Seq<char>, rest: Seq<char>)
    requires
        p.len() > 4,
        !text::is_space(p[0]),
    ensures
        p[4] != 'B' ==> text::trim(p + rest) != "*** Begin Patch"@,
        p[4] != 'E' ==> text::trim(p + rest) != "*** End Patch"@,
        p[4] != 'A' ==> text::strip_prefix(p + rest, "*** Add File: "@) is None,
        p[4] != 'U' ==> text::strip_prefix(p + rest, "*** Update File: "@) is None,
        p[4] != 'D' ==> text::strip_prefix(p + rest, "*** Delete File: "@) is None,
        p[4] != 'R' ==> text::strip_prefix(p + rest, "*** Read File: "@) is None,
        p[4] != 'M' ==> text::strip_prefix(p + rest, "*** Move to: "@) is None,
{
    lemma_native_words();
    let s = p + rest;
    assert(s[4] == p[4] && s[0] == p[0]);
    assert(text::trim_start(s) == s);
    text_laws::law_trimmed_end(s);
    let t = text::trim_end(s);
    assert(t.len() > 4 ==> t[4] == s.take(t.len() as int)[4]);
    text_laws::law_ends_differ(p + rest, "*** Add File: "@, 4);
    text_laws::law_ends_differ(p + rest, "*** Update File: "@, 4);
    text_laws::law_ends_differ(p + rest, "*** Delete File: "@, 4);
    text_laws::law_ends_differ(p + rest, "*** Read File: "@, 4);
    text_laws::law_ends_differ(p + rest, "*** Move to: "@, 4);
}

/// A line that starts a hunk starts one though no lines follow; a line that says that the file ends
/// does not.
pub proof fn law_hunk_without_lines(before: Seq<Seq<char>>, mark: Seq<char>, hint: Seq<char>)
    requires
        !text::starts_with(mark, "move_to "@),
    ensures
        ({
            let u = parser::update_upto(before, before.len() as int);
            let v = parser::update_upto(before.push(mark), before.len() as int + 1);
            &&& text::trim(mark) == "@@"@ + hint ==> parser::flushed(v) == parser::flushed(u).push(
                patch::HunkView {
                    context_hint: if text::trim(hint).len() == 0 {
                        None
                    } else {
                        Some(text::trim(hint))
                    },
                    lines: Seq::empty(),
                },
            )
            &&& text::trim(mark) == "*** End of File"@ ==> parser::flushed(v) == parser::flushed(u)
        }),
{
    lemma_marks();
    lemma_update_prefix(before, seq![mark], before.len() as int);
    assert(before + seq![mark] =~= before.push(mark));
    text_laws::law_ends("@@"@, hint);
    if text::trim(mark) == "@@"@ + hint {
        assert(text::trim(mark)[0] == '@');
    }
}

/// A number that is none leaves what was set before in a reading operation, and sets nothing in a
/// mapping operation.
#[verifier::spinoff_prover]
#[verifier::rlimit(60)]
pub proof fn law_wrong_numbers(words: Seq<Seq<char>>, v: Seq<char>)
    requires
        words.len() > 0,
        numbers::parse_number(v) is None,
    ensures
        parser::read_spec(words.push("offset="@ + v)) == parser::read_spec(words),
        parser::read_spec(words.push("limit="@ + v)) == parser::read_spec(words),
        parser::read_spec(words.push("start="@ + v)) == parser::read_spec(words),
        parser::read_spec(words.push("end="@ + v)) == parser::read_spec(words),
        parser::map_spec(words.push("depth="@ + v)).depth is None,
        parser::map_spec(words.push("limit="@ + v)).output_limit is None,
{
    lemma_keys();
    assert(parser::read_spec(words.push("offset="@ + v)) == parser::read_spec(words)) by {
        lemma_read_word(words, "offset="@, v);
    }
    assert(parser::read_spec(words.push("limit="@ + v)) == parser::read_spec(words)) by {
        lemma_read_word(words, "limit="@, v);
    }
    assert(parser::read_spec(words.push("start="@ + v)) == parser::read_spec(words)) by {
        lemma_read_word(words, "start="@, v);
    }
    assert(parser::read_spec(words.push("end="@ + v)) == parser::read_spec(words)) by {
        lemma_read_word(words, "end="@, v);
    }
    let p = words.skip(1);
    let (x, y) = ("depth="@ + v, "limit="@ + v);
    assert(words.push(x).skip(1) =~= p.push(x));
    assert(words.push(y).skip(1) =~= p.push(y));
    lemma_set(p, x, "depth="@);
    lemma_set(p, y, "limit="@);
    text_laws::law_ends("depth="@, v);
    text_laws::law_ends("limit="@, v);
}

/// A first line of zero is the first line; a last line before the first leaves none; and a last line
/// counts from the first line of the file, whatever the offset.
pub proof fn law_odd_ranges(words: Seq<Seq<char>>, first: usize, last: usize, n: usize)
    requires
        words.len() > 0,
        without_range(words),
    ensures
        ({
            let (a, b) = (
                "start="@ + numbers::decimal(first as nat),
                "end="@ + numbers::decimal(last as nat),
            );
            let zero = parser::read_spec(words.push("start="@ + numbers::decimal(0)));
            let both = parser::read_spec(words.push(a).push(b));
            let upto = parser::read_spec(
                words.push("offset="@ + numbers::decimal(n as nat)).push(b),
            );
            &&& zero.offset == Some(0usize)
            &&& last < first ==> both.limit == Some(0usize)
            &&& last <= n ==> upto.offset == Some(n) && upto.limit == Some(0usize)
            &&& last > n ==> upto.offset == Some(n) && upto.limit == Some((last - n) as usize)
        }),
{
    lemma_first_of_zero(words);
    lemma_first_and_last(words, first, last);
    lemma_last_behind_offset(words, n, last);
}

/// A first line of zero is the first line.
#[verifier::spinoff_prover]
#[verifier::rlimit(40)]
proof fn lemma_first_of_zero(words: Seq<Seq<char>>)
    requires
        words.len() > 0,
        without_range(words),
    ensures
        parser::read_spec(words.push("start="@ + numbers::decimal(0))).offset == Some(0usize),
{
    lemma_keys();
    law_number_is_read(0, Seq::empty(), 0);
    lemma_read_word(words, "start="@, numbers::decimal(0));
}

/// A last line before the first leaves none.
#[verifier::spinoff_prover]
#[verifier::rlimit(40)]
proof fn lemma_first_and_last(words: Seq<Seq<char>>, first: usize, last: usize)
    requires
        words.len() > 0,
        without_range(words),
    ensures
        last < first ==> parser::read_spec(
            words.push("start="@ + numbers::decimal(first as nat)).push(
                "end="@ + numbers::decimal(last as nat),
            ),
        ).limit == Some(0usize),
{
    lemma_keys();
    law_number_is_read(first, Seq::empty(), 0);
    law_number_is_read(last, Seq::empty(), 0);
    let (a, b) = (numbers::decimal(first as nat), numbers::decimal(last as nat));
    lemma_read_word(words, "start="@, a);
    lemma_read_word(words.push("start="@ + a), "end="@, b);
}

/// A last line counts from the first line of the file, whatever the offset.
#[verifier::spinoff_prover]
#[verifier::rlimit(40)]
proof fn lemma_last_behind_offset(words: Seq<Seq<char>>, n: usize, last: usize)
    requires
        words.len() > 0,
        without_range(words),
    ensures
        ({
            let upto = parser::read_spec(
                words.push("offset="@ + numbers::decimal(n as nat)).push(
                    "end="@ + numbers::decimal(last as nat),
                ),
            );
            &&& last <= n ==> upto.offset == Some(n) && upto.limit == Some(0usize)
            &&& last > n ==> upto.offset == Some(n) && upto.limit == Some((last - n) as usize)
        }),
{
    lemma_keys();
    law_number_is_read(n, Seq::empty(), 0);
    law_number_is_read(last, Seq::empty(), 0);
    let (o, b) = (numbers::decimal(n as nat), numbers::decimal(last as nat));
    lemma_read_word(words, "offset="@, o);
    lemma_read_word(words.push("offset="@ + o), "end="@, b);
}

/// A text in the native notation is translated line by line; any other is left as it is.
pub proof fn law_native_text(input: Seq<char>)
    ensures
        ({
            let lines = text::lines(input);
            let native = (forall|i: int| 0 <= i < lines.len() ==> !parser::is_begin(
                #[trigger] lines[i],
            )) && exists|i: int| 0 <= i < lines.len() && parser::is_native_begin(
                #[trigger] lines[i],
            );
            &&& native ==> parser::unified(input) == text::join(
                Seq::new(lines.len(), |i: int| parser::from_native(lines[i])),
                seq!['\n'],
            )
            &&& !native ==> parser::unified(input) == input
        }),
        parser::parsed(input) == parser::parsed_lines(
            text::lines(parser::wrapped(parser::unified(input))),
        ),
{
    reveal_strlit("\n");
    assert("\n"@ =~= seq!['\n']);
    let lines = text::lines(input);
    assert(lines.map_values(|l: Seq<char>| parser::from_native(l)) =~= Seq::new(
        lines.len(),
        |i: int| parser::from_native(lines[i]),
    ));
}

/// The markers that a text lacks are put round it: the first where it has a header, and the last in
/// any case.
pub proof fn law_markers_are_put(input: Seq<char>)
    ensures
        ({
            let lines = text::lines(input);
            let begun = exists|i: int| 0 <= i < lines.len() && parser::is_begin(
                #[trigger] lines[i],
            );
            let ended = exists|i: int| 0 <= i < lines.len() && parser::is_end(#[trigger] lines[i]);
            let headed = exists|i: int| 0 <= i < lines.len() && parser::is_header(
                #[trigger] lines[i],
            );
            &&& begun && ended ==> parser::wrapped(input) == input
            &&& begun && !ended ==> parser::wrapped(input) == input + "\n=== end"@
            &&& !begun && headed && ended ==> parser::wrapped(input) == "=== begin\n"@ + input
            &&& !begun && headed && !ended ==> parser::wrapped(input) == "=== begin\n"@ + input
                + "\n=== end"@
            &&& !begun && !headed && ended ==> parser::wrapped(input) == input
        }),
{
}

/// What the last word that sets a thing says counts, and words that set another thing do not.
pub proof fn law_last_setting(words: Seq<Seq<char>>, key: Seq<char>, v: Seq<char>, w: Seq<char>)
    requires
        text::strip_prefix(w, key) is None,
    ensures
        ({
            let (n, m) = (words.len() as int, words.len() as int + 1);
            &&& parser::setting(words.push(key + v), key, m) == Some(v)
            &&& parser::setting(words.push(w), key, m) == parser::setting(words, key, n)
            &&& numbers::parse_number(v) is Some ==> parser::number_setting(
                words.push(key + v),
                key,
                m,
            ) == numbers::parse_number(v)
            &&& numbers::parse_number(v) is None ==> parser::number_setting(
                words.push(key + v),
                key,
                m,
            ) == parser::number_setting(words, key, n)
            &&& parser::number_setting(words.push(w), key, m) == parser::number_setting(
                words,
                key,
                n,
            )
            &&& parser::setting(Seq::empty(), key, 0) is None
            &&& parser::number_setting(Seq::empty(), key, 0) is None
        }),
{
    text_laws::law_ends(key, v);
    lemma_set(words, key + v, key);
    lemma_set(words, w, key);
}

/// What settings of a reading operation mean together: a first line counts for more than an offset,
/// and a last line for more than a limit; without either, what was set is what counts.
pub proof fn law_settings_together(words: Seq<Seq<char>>)
    requires
        words.len() > 0,
    ensures
        ({
            let p = words.skip(1);
            let n = p.len() as int;
            let offset = parser::number_setting(p, "offset="@, n);
            let limit = parser::number_setting(p, "limit="@, n);
            let start = parser::number_setting(p, "start="@, n);
            let end = parser::number_setting(p, "end="@, n);
            let r = parser::read_spec(words);
            let skipped = if r.offset is Some {
                r.offset->0 as int
            } else {
                0
            };
            &&& start is None ==> r.offset == offset
            &&& start is Some && start->0 > 0 ==> r.offset == Some((start->0 - 1) as usize)
            &&& start is Some && start->0 == 0 ==> r.offset == Some(0usize)
            &&& end is Some && end->0 >= skipped ==> r.limit == Some((end->0 - skipped) as usize)
            &&& end is Some && end->0 < skipped ==> r.limit == Some(0usize)
            &&& end is None && limit is Some ==> r.limit == limit
            &&& end is None && limit is None && start is Some ==> r.limit == Some(usize::MAX)
            &&& end is None && limit is None && start is None ==> r.limit is None
            &&& r.language == parser::setting(p, "language="@, n)
            &&& parser::setting(p, "symbols="@, n) is None ==> r.symbols is None
        }),
{
}

/// A move that names more than two paths is none.
pub proof fn law_move_of_many(
    sp: Seq<char>,
    from: Seq<char>,
    mid: Seq<char>,
    to: Seq<char>,
    rest: Seq<char>,
    section: Seq<Seq<char>>,
)
    requires
        text_laws::blank(sp),
        text_laws::blank(mid),
        mid.len() > 0,
        from.len() > 0,
        to.len() > 0,
        text_laws::solid(from),
        text_laws::solid(to),
        rest.len() > 0,
        text_laws::blank(seq![rest[0]]),
        text::words(rest).len() > 0,
    ensures
        parser::operation("move "@ + (sp + from + (mid + to + rest)), section) matches Err(
            error::PatchErrorView::Parse(_),
        ),
{
    law_headers(sp + from + (mid + to + rest));
    assert((mid + to + rest)[0] == mid[0]);
    assert(seq![rest[0]][0] == rest[0]);
    text_laws::law_words(sp, from, mid + to + rest);
    text_laws::law_words(mid, to, rest);
    text_laws::law_words(Seq::<char>::empty(), to, rest);
}

} // verus!
