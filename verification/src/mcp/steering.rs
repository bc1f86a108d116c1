//! Checks that prose about the tools names the tools that exist.

use vstd::prelude::*;

use crate::sorting::{byte_keys, comes_before, is_sorted_order, lemma_order_is_complete, lex_less, sorted_order};
use crate::text::{chars_of, contains, contains_text, copy_text, lists, same, strip_prefix, text_of, texts};

verus! {

/// Words that prose writes in backticks and that are no tools: inputs, values
/// and states.
pub const ALLOWED_NON_TOOLS: [&'static str; 39] = [
    "top_k",
    "prefer",
    "kinds",
    "expand",
    "domains",
    "scope",
    "codebase_ids",
    "depth",
    "regex",
    "ignore_case",
    "pattern",
    "path",
    "max",
    "page",
    "page_size",
    "symbols",
    "references",
    "from",
    "to",
    "line",
    "column",
    "line_start",
    "line_end",
    "symbol",
    "query",
    "lang",
    "kind",
    "function",
    "container",
    "block",
    "code",
    "docs",
    "queued",
    "running",
    "done",
    "failed",
    "semctl",
    "search",
    "stale",
];

/// How hosts qualify the name of a tool.
pub const HOST_PREFIXES: [&'static str; 3] = [
    "mcp__semctx__",
    "mcp__plugin_semctx_semctx__",
    "mcp__semctx_semctx_",
];

/// The pieces of a text between backticks, the first one from its start.
pub open spec fn spans(s: Seq<char>) -> Seq<Seq<char>>
    decreases s.len(),
{
    if s.len() == 0 {
        seq![seq![]]
    } else if s.last() == '`' {
        spans(s.drop_last()).push(seq![])
    } else {
        let before = spans(s.drop_last());
        before.drop_last().push(before.last().push(s.last()))
    }
}

pub open spec fn is_word_char(c: char) -> bool {
    ('a' <= c <= 'z') || ('0' <= c <= '9') || c == '_'
}

/// Whether a span is one word in snake case.
pub open spec fn is_ident(span: Seq<char>) -> bool {
    &&& span.len() > 0
    &&& 'a' <= span[0] <= 'z'
    &&& forall|i: int| 0 <= i < span.len() ==> is_word_char(#[trigger] span[i])
}

/// The words in backticks: the spans that stand between two backticks, or after
/// the last one, and are one word in snake case.
pub open spec fn idents(pieces: Seq<Seq<char>>) -> Seq<Seq<char>>
    decreases pieces.len(),
{
    if pieces.len() == 0 {
        seq![]
    } else {
        let before = idents(pieces.drop_last());
        if pieces.len() % 2 == 0 && is_ident(pieces.last()) {
            before.push(pieces.last())
        } else {
            before
        }
    }
}

fn word_char(c: char) -> (is: bool)
    ensures
        is == is_word_char(c),
{
    (c >= 'a' && c <= 'z') || (c >= '0' && c <= '9') || c == '_'
}

fn ident(chars: &Vec<char>, from: usize, to: usize) -> (is: bool)
    requires
        from <= to <= chars@.len(),
    ensures
        is == is_ident(chars@.subrange(from as int, to as int)),
{
    let ghost span = chars@.subrange(from as int, to as int);
    if from == to {
        return false;
    }
    assert(span[0] == chars@[from as int]);
    if !(chars[from] >= 'a' && chars[from] <= 'z') {
        return false;
    }
    let mut i: usize = from;
    while i < to
        invariant
            from <= i <= to <= chars@.len(),
            span == chars@.subrange(from as int, to as int),
            forall|k: int| 0 <= k < i - from ==> is_word_char(#[trigger] span[k]),
        decreases to - i,
    {
        assert(span[i - from] == chars@[i as int]);
        if !word_char(chars[i]) {
            return false;
        }
        i = i + 1;
    }
    true
}

/// The words in backticks, in order.
pub fn backticked_idents(text: &str) -> (words: Vec<String>)
    ensures
        texts(words@) == idents(spans(text@)),
{
    let chars = chars_of(text);
    let mut words: Vec<String> = Vec::new();
    let mut from: usize = 0;
    let mut quoted = false;
    let mut i: usize = 0;
    proof {
        assert(chars@.take(0) =~= Seq::<char>::empty());
        assert(spans(chars@.take(0)) =~= seq![Seq::<char>::empty()]);
        assert(spans(chars@.take(0)).drop_last() =~= Seq::<Seq<char>>::empty());
        assert(texts(words@) =~= idents(spans(chars@.take(0)).drop_last()));
        assert(chars@.subrange(0, 0) =~= Seq::<char>::empty());
    }
    while i < chars.len()
        invariant
            from <= i <= chars@.len(),
            chars@ == text@,
            spans(chars@.take(i as int)).len() >= 1,
            quoted == (spans(chars@.take(i as int)).len() % 2 == 0),
            spans(chars@.take(i as int)).last() == chars@.subrange(from as int, i as int),
            texts(words@) == idents(spans(chars@.take(i as int)).drop_last()),
        decreases chars@.len() - i,
    {
        let ghost pieces = spans(chars@.take(i as int));
        let ghost next = chars@.take(i + 1);
        proof {
            assert(next.drop_last() =~= chars@.take(i as int));
            assert(next.last() == chars@[i as int]);
        }
        if chars[i] == '`' {
            let ghost before = texts(words@);
            if quoted && ident(&chars, from, i) {
                let word = text_of(&chars, from, i);
                let ghost added = word@;
                words.push(word);
                assert(texts(words@) =~= before.push(added));
            }
            proof {
                assert(spans(next) == pieces.push(seq![]));
                assert(spans(next).drop_last() =~= pieces);
                assert(chars@.subrange(i + 1, i + 1) =~= Seq::<char>::empty());
            }
            quoted = !quoted;
            from = i + 1;
        } else {
            proof {
                let longer = pieces.last().push(chars@[i as int]);
                assert(spans(next) == pieces.drop_last().push(longer));
                assert(spans(next).drop_last() =~= pieces.drop_last());
                assert(longer =~= chars@.subrange(from as int, i + 1));
            }
        }
        i = i + 1;
    }
    assert(chars@.take(i as int) =~= text@);
    let ghost before = texts(words@);
    if quoted && ident(&chars, from, i) {
        let word = text_of(&chars, from, i);
        let ghost added = word@;
        words.push(word);
        assert(texts(words@) =~= before.push(added));
    }
    words
}

/// Whether a word begins with a prefix.
pub open spec fn begins_with(word: Seq<char>, prefix: Seq<char>) -> bool {
    prefix.len() <= word.len() && word.take(prefix.len() as int) == prefix
}

/// A tool's own name: without the first host prefix that it has.
pub open spec fn bare_name(word: Seq<char>, prefixes: Seq<&'static str>, n: int) -> Seq<char>
    decreases prefixes.len() - n,
{
    if n < 0 || n >= prefixes.len() {
        word
    } else if begins_with(word, prefixes[n]@) {
        word.skip(prefixes[n]@.len() as int)
    } else {
        bare_name(word, prefixes, n + 1)
    }
}

fn bare(word: &str) -> (name: String)
    ensures
        name@ == bare_name(word@, HOST_PREFIXES@, 0),
{
    let mut n: usize = 0;
    while n < HOST_PREFIXES.len()
        invariant
            n <= HOST_PREFIXES@.len(),
            bare_name(word@, HOST_PREFIXES@, 0) == bare_name(word@, HOST_PREFIXES@, n as int),
        decreases HOST_PREFIXES@.len() - n,
    {
        match strip_prefix(word, HOST_PREFIXES[n]) {
            Some(rest) => return rest,
            None => {},
        }
        n = n + 1;
    }
    copy_text(word)
}

/// Whether a word is neither a tool, by its own name or as a host qualifies it,
/// nor one of the other words that prose uses.
pub open spec fn is_phantom(word: Seq<char>, tools: Seq<Seq<char>>) -> bool {
    &&& !tools.contains(bare_name(word, HOST_PREFIXES@, 0))
    &&& !crate::mcp::tools::is_one_of(word, ALLOWED_NON_TOOLS@)
}

fn phantom(word: &str, tools: &Vec<String>) -> (is: bool)
    ensures
        is == is_phantom(word@, texts(tools@)),
{
    !lists(tools, bare(word).as_str()) && !crate::mcp::tools::one_of(word, &ALLOWED_NON_TOOLS)
}

/// Whether words stand in strictly rising order of their bytes, so that each
/// stands there once.
pub open spec fn strictly_rising(words: Seq<Seq<char>>) -> bool {
    forall|i: int, j: int|
        0 <= i < j < words.len() ==> lex_less(
            vstd::utf8::encode_utf8(#[trigger] words[i]),
            vstd::utf8::encode_utf8(#[trigger] words[j]),
        )
}

proof fn lemma_same_bytes(a: Seq<char>, b: Seq<char>)
    requires
        vstd::utf8::encode_utf8(a) == vstd::utf8::encode_utf8(b),
    ensures
        a == b,
{
    vstd::utf8::encode_utf8_decode_utf8(a);
    vstd::utf8::encode_utf8_decode_utf8(b);
}

/// The words in backticks that are no tools, sorted, each once. A tool that was
/// renamed or removed leaves its old name behind in prose, and this finds it.
pub fn phantom_tools(text: &str, tools: &Vec<String>) -> (words: Vec<String>)
    ensures
        strictly_rising(texts(words@)),
        forall|word: Seq<char>| #[trigger]
            texts(words@).contains(word) <==> idents(spans(text@)).contains(word) && is_phantom(
                word,
                texts(tools@),
            ),
{
    let all = backticked_idents(text);
    let ghost named = idents(spans(text@));
    let ghost known = texts(tools@);
    let mut found: Vec<String> = Vec::new();
    let mut i: usize = 0;
    assert(texts(found@) =~= Seq::<Seq<char>>::empty());
    while i < all.len()
        invariant
            i <= all@.len(),
            texts(all@) == named,
            known == texts(tools@),
            forall|word: Seq<char>| #[trigger]
                texts(found@).contains(word) <==> named.take(i as int).contains(word) && is_phantom(
                    word,
                    known,
                ),
        decreases all@.len() - i,
    {
        let ghost before = texts(found@);
        proof {
            assert(named[i as int] == all@[i as int]@);
            assert forall|word: Seq<char>| #[trigger]
                named.take(i + 1).contains(word) <==> named.take(i as int).contains(word) || word
                    == named[i as int] by {
                if named.take(i as int).contains(word) {
                    let k = named.take(i as int).index_of(word);
                    assert(named.take(i + 1)[k] == word);
                }
                assert(named.take(i + 1)[i as int] == named[i as int]);
                if named.take(i + 1).contains(word) {
                    let k = named.take(i + 1).index_of(word);
                    if k < i {
                        assert(named.take(i as int)[k] == word);
                    }
                }
            }
        }
        if phantom(all[i].as_str(), tools) {
            found.push(copy_text(all[i].as_str()));
            proof {
                let after = texts(found@);
                assert(after =~= before.push(named[i as int]));
                assert forall|word: Seq<char>| #[trigger]
                    after.contains(word) <==> before.contains(word) || word == named[i as int] by {
                    if before.contains(word) {
                        let k = before.index_of(word);
                        assert(after[k] == word);
                    }
                    assert(after[before.len() as int] == named[i as int]);
                }
            }
        }
        i = i + 1;
    }
    assert(named.take(i as int) =~= named);
    let order = sorted_order(&found);
    let ghost keys = byte_keys(found@);
    let mut words: Vec<String> = Vec::new();
    let mut i: usize = 0;
    assert(texts(words@) =~= Seq::<Seq<char>>::empty());
    while i < order.len()
        invariant
            i <= order@.len(),
            keys == byte_keys(found@),
            is_sorted_order(keys, order@),
            strictly_rising(texts(words@)),
            forall|word: Seq<char>| #[trigger]
                texts(words@).contains(word) <==> exists|k: int|
                    0 <= k < i && (#[trigger] found@[order@[k] as int])@ == word,
            i > 0 ==> words@.len() > 0 && words@.last()@ == found@[order@[i - 1] as int]@,
            i == 0 ==> words@.len() == 0,
        decreases order@.len() - i,
    {
        let at: usize = order[i];
        let ghost before = texts(words@);
        let ghost word = found@[at as int]@;
        let repeated = words.len() > 0 && same(words[words.len() - 1].as_str(), found[at].as_str());
        proof {
            assert(keys[at as int] == vstd::utf8::encode_utf8(word));
            if i > 0 {
                let last = order@[i - 1] as int;
                assert(keys[last] == vstd::utf8::encode_utf8(found@[last]@));
                assert(comes_before(keys, order@[i - 1] as int, order@[i as int] as int));
            }
        }
        if !repeated {
            words.push(copy_text(found[at].as_str()));
            proof {
                let after = texts(words@);
                assert(after =~= before.push(word));
                if i > 0 {
                    let last = order@[i - 1] as int;
                    assert(keys[last] != keys[at as int]) by {
                        if keys[last] == keys[at as int] {
                            lemma_same_bytes(found@[last]@, word);
                        }
                    }
                    assert(lex_less(keys[last], keys[at as int]));
                    assert forall|a: int, b: int| 0 <= a < b < after.len() implies lex_less(
                        vstd::utf8::encode_utf8(#[trigger] after[a]),
                        vstd::utf8::encode_utf8(#[trigger] after[b]),
                    ) by {
                        if b < before.len() {
                            assert(after[a] == before[a] && after[b] == before[b]);
                        } else if a < before.len() - 1 {
                            assert(after[a] == before[a]);
                            assert(before[before.len() - 1] == found@[last]@);
                            crate::sorting::lemma_lex_transitive(
                                vstd::utf8::encode_utf8(before[a]),
                                keys[last],
                                keys[at as int],
                            );
                        } else {
                            assert(after[a] == before[a]);
                            assert(before[a] == found@[last]@);
                        }
                    }
                }
                assert forall|w: Seq<char>| #[trigger]
                    after.contains(w) <==> before.contains(w) || w == word by {
                    if before.contains(w) {
                        let k = before.index_of(w);
                        assert(after[k] == w);
                    }
                    assert(after[before.len() as int] == word);
                }
            }
        }
        proof {
            let now = texts(words@);
            assert forall|w: Seq<char>| #[trigger]
                now.contains(w) <==> exists|k: int|
                    0 <= k < i + 1 && (#[trigger] found@[order@[k] as int])@ == w by {
                if now.contains(w) {
                    if before.contains(w) {
                        let k = choose|k: int|
                            0 <= k < i && (#[trigger] found@[order@[k] as int])@ == w;
                        assert(0 <= k < i + 1 && found@[order@[k] as int]@ == w);
                    } else {
                        assert(found@[order@[i as int] as int]@ == w);
                    }
                }
                if exists|k: int| 0 <= k < i + 1 && (#[trigger] found@[order@[k] as int])@ == w {
                    let k = choose|k: int|
                        0 <= k < i + 1 && (#[trigger] found@[order@[k] as int])@ == w;
                    if k < i {
                        assert(before.contains(w));
                    } else {
                        assert(w == word);
                        if repeated {
                            assert(before[before.len() - 1] == word);
                        }
                    }
                }
            }
        }
        i = i + 1;
    }
    proof {
        assert forall|word: Seq<char>| #[trigger] texts(words@).contains(word) <==> texts(
            found@,
        ).contains(word) by {
            if texts(words@).contains(word) {
                let k = choose|k: int|
                    0 <= k < i && (#[trigger] found@[order@[k] as int])@ == word;
                assert(texts(found@)[order@[k] as int] == word);
            }
            if texts(found@).contains(word) {
                let index = texts(found@).index_of(word);
                lemma_order_is_complete(keys, order@, index);
                let k = choose|k: int| 0 <= k < order@.len() && #[trigger] order@[k] == index;
                assert(found@[order@[k] as int]@ == word);
            }
        }
    }
    words
}

/// The tools that a text does not mention, in order.
pub open spec fn unmentioned(text: Seq<char>, tools: Seq<Seq<char>>) -> Seq<Seq<char>>
    decreases tools.len(),
{
    if tools.len() == 0 {
        seq![]
    } else if contains_text(text, tools.last()) {
        unmentioned(text, tools.drop_last())
    } else {
        unmentioned(text, tools.drop_last()).push(tools.last())
    }
}

pub fn missing_from(text: &str, tools: &Vec<String>) -> (missing: Vec<String>)
    ensures
        texts(missing@) == unmentioned(text@, texts(tools@)),
{
    let ghost all = texts(tools@);
    let mut missing: Vec<String> = Vec::new();
    let mut i: usize = 0;
    assert(texts(missing@) =~= unmentioned(text@, all.take(0)));
    while i < tools.len()
        invariant
            i <= tools@.len(),
            all == texts(tools@),
            texts(missing@) == unmentioned(text@, all.take(i as int)),
        decreases tools@.len() - i,
    {
        let ghost before = texts(missing@);
        proof {
            assert(all.take(i + 1).drop_last() =~= all.take(i as int));
            assert(all.take(i + 1).last() == tools@[i as int]@);
        }
        if !contains(text, tools[i].as_str()) {
            missing.push(copy_text(tools[i].as_str()));
            assert(texts(missing@) =~= before.push(tools@[i as int]@));
        }
        i = i + 1;
    }
    assert(all.take(i as int) =~= all);
    missing
}

/// The tools that are offered, as texts.
pub fn registered_tools() -> (tools: Vec<String>)
    ensures
        tools@.len() == crate::mcp::tools::TOOLS@.len(),
        forall|i: int|
            0 <= i < tools@.len() ==> (#[trigger] tools@[i])@ == crate::mcp::tools::TOOLS@[i]@,
{
    let mut tools: Vec<String> = Vec::new();
    let mut i: usize = 0;
    while i < crate::mcp::tools::TOOLS.len()
        invariant
            i <= crate::mcp::tools::TOOLS@.len(),
            tools@.len() == i,
            forall|k: int|
                0 <= k < i ==> (#[trigger] tools@[k])@ == crate::mcp::tools::TOOLS@[k]@,
        decreases crate::mcp::tools::TOOLS@.len() - i,
    {
        tools.push(copy_text(crate::mcp::tools::TOOLS[i]));
        i = i + 1;
    }
    tools
}

/// Backticks part a text: one more backtick ends a piece and begins another, and any
/// other character belongs to the last piece.
pub proof fn law_backticks_part_a_text(s: Seq<char>, c: char)
    ensures
        spans(seq![]) == seq![Seq::<char>::empty()],
        spans(s).len() > 0,
        spans(s.push('`')) == spans(s).push(seq![]),
        c != '`' ==> spans(s.push(c)) == spans(s).update(
            spans(s).len() - 1,
            spans(s)[spans(s).len() - 1].push(c),
        ),
{
    lemma_spans_are_some(s);
    assert(s.push('`').drop_last() =~= s);
    assert(s.push(c).drop_last() =~= s);
    let before = spans(s);
    assert(before.drop_last().push(before.last().push(c)) =~= before.update(
        before.len() - 1,
        before[before.len() - 1].push(c),
    ));
}

proof fn lemma_spans_are_some(s: Seq<char>)
    ensures
        spans(s).len() > 0,
    decreases s.len(),
{
    if s.len() > 0 {
        lemma_spans_are_some(s.drop_last());
    }
}

/// The words in backticks are every second piece that has the form of a name: small
/// letters, digits and underscores, a letter first.
pub proof fn law_names_stand_in_backticks(pieces: Seq<Seq<char>>, piece: Seq<char>)
    ensures
        idents(seq![]).len() == 0,
        ({
            let in_backticks = pieces.len() % 2 == 1;
            let is_name = piece.len() > 0 && 'a' <= piece[0] <= 'z' && (forall|i: int|
                0 <= i < piece.len() ==> ('a' <= #[trigger] piece[i] <= 'z' || '0' <= piece[i]
                    <= '9' || piece[i] == '_'));
            &&& in_backticks && is_name ==> idents(pieces.push(piece)) == idents(pieces) + seq![
                piece,
            ]
            &&& !(in_backticks && is_name) ==> idents(pieces.push(piece)) == idents(pieces)
        }),
{
    let all = pieces.push(piece);
    assert(all.drop_last() =~= pieces);
    assert(all.last() == piece);
    if pieces.len() % 2 == 1 && is_ident(piece) {
        assert(idents(all) =~= idents(pieces) + seq![piece]);
    }
}

/// A name that a host qualifies stands for the tool behind the first prefix that it
/// begins with; another name stands for itself.
pub proof fn law_hosts_qualify_names(
    word: Seq<char>,
    prefixes: Seq<&'static str>,
    from: int,
    at: int,
)
    requires
        0 <= from <= at <= prefixes.len(),
        forall|k: int| from <= k < at ==> !(#[trigger] prefixes[k])@.is_prefix_of(word),
        at < prefixes.len() ==> prefixes[at]@.is_prefix_of(word),
    ensures
        at == prefixes.len() ==> bare_name(word, prefixes, from) == word,
        at < prefixes.len() ==> bare_name(word, prefixes, from) == word.subrange(
            prefixes[at]@.len() as int,
            word.len() as int,
        ),
    decreases at - from,
{
    if from < at {
        assert(!prefixes[from]@.is_prefix_of(word));
        law_hosts_qualify_names(word, prefixes, from + 1, at);
    }
}

/// A tool is missing from a text exactly where the text does not hold its name, and
/// the missing ones stay in their order.
pub proof fn law_unmentioned_tools_are_missing(text: Seq<char>, tools: Seq<Seq<char>>)
    ensures
        unmentioned(text, tools) == tools.filter(|tool: Seq<char>| !contains_text(text, tool)),
    decreases tools.len(),
{
    reveal(Seq::filter);
    if tools.len() > 0 {
        law_unmentioned_tools_are_missing(text, tools.drop_last());
    }
}

/// The phantom tools of a text are the words in backticks that are neither a tool, with
/// or without the prefix of a host, nor allowed otherwise; each once, in their order.
pub proof fn law_what_a_phantom_tool_is(
    text: &str,
    tools: &Vec<String>,
    words: Vec<String>,
    word: Seq<char>,
    missing: Vec<String>,
)
    requires
        call_ensures(phantom_tools, (text, tools), words),
        call_ensures(missing_from, (text, tools), missing),
    ensures
        texts(words@).contains(word) <==> {
            &&& idents(spans(text@)).contains(word)
            &&& !texts(tools@).contains(bare_name(word, HOST_PREFIXES@, 0))
            &&& forall|i: int|
                0 <= i < ALLOWED_NON_TOOLS@.len() ==> (#[trigger] ALLOWED_NON_TOOLS@[i])@ != word
        },
        texts(missing@) == texts(tools@).filter(|tool: Seq<char>| !contains_text(text@, tool)),
{
    law_unmentioned_tools_are_missing(text@, texts(tools@));
    assert(texts(words@).contains(word) <==> idents(spans(text@)).contains(word) && is_phantom(
        word,
        texts(tools@),
    ));
}

} // verus!
