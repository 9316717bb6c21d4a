//! How a shell reads a command: the words it splits it into and what quotes leave of them. This
//! is what quoting is held against.
use vstd::prelude::*;
use crate::text;
use crate::util;

verus! {

/// Where a reader of a command is.
pub enum Mode {
    /// Between words.
    Gap,
    /// In a word, outside quotes.
    Bare,
    /// In single quotes.
    Single,
    /// In double quotes.
    Double,
}

/// Characters that mean nothing but themselves outside quotes.
pub open spec fn plain(c: char) -> bool {
    ||| 'a' <= c <= 'z'
    ||| 'A' <= c <= 'Z'
    ||| '0' <= c <= '9'
    ||| c == '-'
    ||| c == '_'
    ||| c == '.'
    ||| c == '/'
    ||| c == ':'
    ||| c == '='
    ||| c == '+'
}

/// Characters that mean nothing but themselves in double quotes.
pub open spec fn plain_in_double_quotes(c: char) -> bool {
    c != '"' && c != '$' && c != '`' && c != '\\' && c != '!'
}

/// Reads on: `s` is left to read, `words` are complete, `word` is the one begun. The result is
/// `None` where a character has a meaning beyond words and quotes, or a quote is not closed.
pub open spec fn read_on(s: Seq<char>, words: Seq<Seq<char>>, word: Seq<char>, mode: Mode) -> Option<
    Seq<Seq<char>>,
>
    decreases s.len(),
{
    if s.len() == 0 {
        match mode {
            Mode::Gap => Some(words),
            Mode::Bare => Some(words.push(word)),
            _ => None,
        }
    } else {
        let c = s[0];
        let rest = s.drop_first();
        match mode {
            Mode::Gap => if c == ' ' {
                read_on(rest, words, seq![], Mode::Gap)
            } else if c == '\'' {
                read_on(rest, words, seq![], Mode::Single)
            } else if c == '"' {
                read_on(rest, words, seq![], Mode::Double)
            } else if plain(c) {
                read_on(rest, words, seq![c], Mode::Bare)
            } else {
                None
            },
            Mode::Bare => if c == ' ' {
                read_on(rest, words.push(word), seq![], Mode::Gap)
            } else if c == '\'' {
                read_on(rest, words, word, Mode::Single)
            } else if c == '"' {
                read_on(rest, words, word, Mode::Double)
            } else if plain(c) {
                read_on(rest, words, word.push(c), Mode::Bare)
            } else {
                None
            },
            Mode::Single => if c == '\'' {
                read_on(rest, words, word, Mode::Bare)
            } else {
                read_on(rest, words, word.push(c), Mode::Single)
            },
            Mode::Double => if c == '"' {
                read_on(rest, words, word, Mode::Bare)
            } else if plain_in_double_quotes(c) {
                read_on(rest, words, word.push(c), Mode::Double)
            } else {
                None
            },
        }
    }
}

/// The words of a command, for a command that is nothing but words, quotes and blanks.
pub open spec fn words(s: Seq<char>) -> Option<Seq<Seq<char>>> {
    read_on(s, seq![], seq![], Mode::Gap)
}

/// Each text of a list as one word.
pub open spec fn escaped_each(list: Seq<Seq<char>>) -> Seq<Seq<char>> {
    list.map_values(|s: Seq<char>| util::escaped(s))
}

/// The texts of a list as one command.
pub open spec fn command_of(list: Seq<Seq<char>>) -> Seq<char> {
    text::join(escaped_each(list), seq![' '])
}

/// The texts of a list as one command.
pub fn quoted_command(list: &Vec<String>) -> (r: String)
    ensures
        r@ == command_of(text::views(list@)),
{
    let mut each: Vec<String> = Vec::new();
    let ghost all = escaped_each(text::views(list@));
    assert(text::views(each@) =~= all.take(0));
    for i in 0..list.len()
        invariant
            all == escaped_each(text::views(list@)),
            text::views(each@) == all.take(i as int),
    {
        let word = util::shell_escape(list[i].as_str());
        proof {
            text::lemma_views_push(each@, word);
            assert(text::views(list@)[i as int] == list@[i as int]@);
            assert(all.take(i + 1) =~= all.take(i as int).push(word@));
        }
        each.push(word);
    }
    assert(all.take(all.len() as int) =~= all);
    proof {
        reveal_strlit(" ");
        assert(" "@ =~= seq![' ']);
    }
    text::join_texts(&each, " ")
}

/// Inside single quotes, what stands for `v` is read as `v`.
proof fn lemma_read_body(
    v: Seq<char>,
    rest: Seq<char>,
    done: Seq<Seq<char>>,
    word: Seq<char>,
)
    ensures
        read_on(util::quoted_body(v) + rest, done, word, Mode::Single) == read_on(
            rest,
            done,
            word + v,
            Mode::Single,
        ),
    decreases v.len(),
{
    if v.len() == 0 {
        assert(util::quoted_body(v) + rest =~= rest);
        assert(word + v =~= word);
    } else {
        let init = v.drop_last();
        let c = v.last();
        if c == '\'' {
            let tail = util::quoted_quote() + rest;
            assert(util::quoted_body(v) + rest =~= util::quoted_body(init) + tail);
            lemma_read_body(init, tail, done, word);
            let w = word + init;
            let t1 = tail.drop_first();
            let t2 = t1.drop_first();
            let t3 = t2.drop_first();
            let t4 = t3.drop_first();
            let t5 = t4.drop_first();
            assert(t1[0] == '"');
            assert(t2[0] == '\'');
            assert(t3[0] == '"');
            assert(t4[0] == '\'');
            assert(t5 =~= rest);
            assert(read_on(tail, done, w, Mode::Single) == read_on(t1, done, w, Mode::Bare));
            assert(read_on(t1, done, w, Mode::Bare) == read_on(t2, done, w, Mode::Double));
            assert(read_on(t2, done, w, Mode::Double) == read_on(
                t3,
                done,
                w.push('\''),
                Mode::Double,
            ));
            assert(read_on(t3, done, w.push('\''), Mode::Double) == read_on(
                t4,
                done,
                w.push('\''),
                Mode::Bare,
            ));
            assert(w.push('\'') =~= word + v);
        } else {
            let tail = seq![c] + rest;
            assert(util::quoted_body(v) + rest =~= util::quoted_body(init) + tail);
            lemma_read_body(init, tail, done, word);
            assert(tail.drop_first() =~= rest);
            assert((word + init).push(c) =~= word + v);
        }
    }
}

/// A quoted text behind a gap is read as one word, the text.
pub proof fn lemma_read_escaped(v: Seq<char>, rest: Seq<char>, done: Seq<Seq<char>>)
    ensures
        read_on(util::escaped(v) + rest, done, seq![], Mode::Gap) == read_on(
            rest,
            done,
            v,
            Mode::Bare,
        ),
{
    lemma_read_escaped_at(v, rest, done, seq![], Mode::Gap);
    assert(Seq::<char>::empty() + v =~= v);
}

/// A quoted text goes on with the word begun, if there is one.
proof fn lemma_read_escaped_at(
    v: Seq<char>,
    rest: Seq<char>,
    done: Seq<Seq<char>>,
    word: Seq<char>,
    mode: Mode,
)
    requires
        mode is Gap && word.len() == 0 || mode is Bare,
    ensures
        read_on(util::escaped(v) + rest, done, word, mode) == read_on(
            rest,
            done,
            word + v,
            Mode::Bare,
        ),
{
    let all = util::escaped(v) + rest;
    let close = seq!['\''] + rest;
    assert(all[0] == '\'');
    assert(all.drop_first() =~= util::quoted_body(v) + close);
    if mode is Gap {
        assert(word =~= seq![]);
    }
    lemma_read_body(v, close, done, word);
    assert(close[0] == '\'');
    assert(close.drop_first() =~= rest);
}

/// Plain characters are read as they are.
proof fn lemma_read_plain(p: Seq<char>, rest: Seq<char>, done: Seq<Seq<char>>, word: Seq<char>)
    requires
        forall|i: int| 0 <= i < p.len() ==> plain(#[trigger] p[i]),
    ensures
        read_on(p + rest, done, word, Mode::Bare) == read_on(rest, done, word + p, Mode::Bare),
    decreases p.len(),
{
    if p.len() == 0 {
        assert(p + rest =~= rest);
        assert(word + p =~= word);
    } else {
        assert(plain(p[0]));
        assert((p + rest)[0] == p[0]);
        assert((p + rest).drop_first() =~= p.drop_first() + rest);
        assert forall|i: int| 0 <= i < p.drop_first().len() implies plain(
            #[trigger] p.drop_first()[i],
        ) by {
            assert(p[i + 1] == p.drop_first()[i]);
        }
        lemma_read_plain(p.drop_first(), rest, done, word.push(p[0]));
        assert(word.push(p[0]) + p.drop_first() =~= word + p);
    }
}

/// A word that starts with plain characters, which need not be quoted.
pub proof fn lemma_read_word(p: Seq<char>, rest: Seq<char>, done: Seq<Seq<char>>)
    requires
        p.len() > 0,
        forall|i: int| 0 <= i < p.len() ==> plain(#[trigger] p[i]),
    ensures
        read_on(p + rest, done, seq![], Mode::Gap) == read_on(rest, done, p, Mode::Bare),
{
    assert(plain(p[0]));
    assert((p + rest)[0] == p[0]);
    assert((p + rest).drop_first() =~= p.drop_first() + rest);
    assert forall|i: int| 0 <= i < p.drop_first().len() implies plain(
        #[trigger] p.drop_first()[i],
    ) by {
        assert(p[i + 1] == p.drop_first()[i]);
    }
    lemma_read_plain(p.drop_first(), rest, done, seq![p[0]]);
    assert(seq![p[0]] + p.drop_first() =~= p);
}

/// A name with an equals sign, then a quoted value: one word.
pub proof fn lemma_read_assignment(
    name: Seq<char>,
    v: Seq<char>,
    rest: Seq<char>,
    done: Seq<Seq<char>>,
)
    requires
        name.len() > 0,
        forall|i: int| 0 <= i < name.len() ==> plain(#[trigger] name[i]),
    ensures
        read_on(name + util::escaped(v) + rest, done, seq![], Mode::Gap) == read_on(
            rest,
            done,
            name + v,
            Mode::Bare,
        ),
{
    let tail = util::escaped(v) + rest;
    assert(name + util::escaped(v) + rest =~= name + tail);
    lemma_read_word(name, tail, done);
    lemma_read_escaped_at(v, rest, done, name, Mode::Bare);
}

/// A blank ends a word.
pub proof fn lemma_read_blank(rest: Seq<char>, done: Seq<Seq<char>>, word: Seq<char>)
    ensures
        read_on(seq![' '] + rest, done, word, Mode::Bare) == read_on(
            rest,
            done.push(word),
            seq![],
            Mode::Gap,
        ),
{
    assert((seq![' '] + rest).drop_first() =~= rest);
}

/// A blank and a quoted text for each of a list, behind a word.
pub open spec fn blank_escaped(list: Seq<Seq<char>>) -> Seq<char>
    decreases list.len(),
{
    if list.len() == 0 {
        seq![]
    } else {
        blank_escaped(list.drop_last()) + seq![' '] + util::escaped(list.last())
    }
}

pub proof fn lemma_blank_escaped_front(v: Seq<char>, list: Seq<Seq<char>>)
    ensures
        blank_escaped(seq![v] + list) == seq![' '] + util::escaped(v) + blank_escaped(list),
    decreases list.len(),
{
    let all = seq![v] + list;
    if list.len() == 0 {
        assert(all.drop_last() =~= list);
        assert(blank_escaped(all) =~= seq![' '] + util::escaped(v) + blank_escaped(list));
    } else {
        assert(all.drop_last() =~= seq![v] + list.drop_last());
        lemma_blank_escaped_front(v, list.drop_last());
        assert(blank_escaped(all) =~= seq![' '] + util::escaped(v) + blank_escaped(list));
    }
}

/// Quoted texts behind a word are read as one word each.
pub proof fn lemma_read_list(list: Seq<Seq<char>>, done: Seq<Seq<char>>, word: Seq<char>)
    ensures
        read_on(blank_escaped(list), done, word, Mode::Bare) == Some(done.push(word) + list),
    decreases list.len(),
{
    if list.len() == 0 {
        assert(done.push(word) + list =~= done.push(word));
    } else {
        let v = list[0];
        let more = list.drop_first();
        assert(seq![v] + more =~= list);
        lemma_blank_escaped_front(v, more);
        let tail = blank_escaped(more);
        assert(blank_escaped(list) =~= seq![' '] + (util::escaped(v) + tail));
        lemma_read_blank(util::escaped(v) + tail, done, word);
        lemma_read_escaped(v, tail, done.push(word));
        lemma_read_list(more, done.push(word), v);
        assert(done.push(word).push(v) + more =~= done.push(word) + list);
    }
}

proof fn lemma_command_of(list: Seq<Seq<char>>)
    requires
        list.len() > 0,
    ensures
        command_of(list) == util::escaped(list[0]) + blank_escaped(list.drop_first()),
    decreases list.len(),
{
    let each = escaped_each(list);
    assert(each[0] == util::escaped(list[0]));
    if list.len() == 1 {
        assert(blank_escaped(list.drop_first()) =~= Seq::<char>::empty());
        assert(command_of(list) =~= util::escaped(list[0]) + blank_escaped(list.drop_first()));
    } else {
        let init = list.drop_last();
        lemma_command_of(init);
        assert(each.drop_last() =~= escaped_each(init));
        assert(each.last() == util::escaped(list.last()));
        assert(list.drop_first().drop_last() =~= init.drop_first());
        assert(command_of(list) =~= util::escaped(list[0]) + blank_escaped(list.drop_first()));
    }
}

/// A quoted text is read by a shell as one word, the text itself, whatever characters it holds.
pub proof fn quoting_keeps_a_word(v: Seq<char>)
    ensures
        words(util::escaped(v)) == Some(seq![v]),
{
    let none = Seq::<char>::empty();
    assert(util::escaped(v) + none =~= util::escaped(v));
    lemma_read_escaped(v, none, seq![]);
    assert(Seq::<Seq<char>>::empty().push(v) =~= seq![v]);
}

/// A list of quoted texts, with blanks between them, is read by a shell as the list.
pub proof fn quoting_keeps_words(list: Seq<Seq<char>>)
    ensures
        words(command_of(list)) == Some(list),
{
    if list.len() == 0 {
        assert(list =~= Seq::<Seq<char>>::empty());
    } else {
        lemma_command_of(list);
        let tail = blank_escaped(list.drop_first());
        lemma_read_escaped(list[0], tail, seq![]);
        lemma_read_list(list.drop_first(), seq![], list[0]);
        assert(Seq::<Seq<char>>::empty().push(list[0]) + list.drop_first() =~= list);
    }
}

/// Behind `exec`, a list of quoted texts is read as the list too.
pub proof fn lemma_exec_keeps_words(list: Seq<Seq<char>>)
    requires
        list.len() > 0,
    ensures
        words("exec "@ + command_of(list)) == Some(seq!["exec"@] + list),
{
    reveal_strlit("exec ");
    reveal_strlit("exec");
    let none = Seq::<Seq<char>>::empty();
    let rest = command_of(list);
    assert("exec "@ + rest =~= "exec"@ + (seq![' '] + rest));
    lemma_read_word("exec"@, seq![' '] + rest, none);
    lemma_read_blank(rest, none, "exec"@);
    let one = none.push("exec"@);
    lemma_command_of(list);
    let tail = blank_escaped(list.drop_first());
    lemma_read_escaped(list[0], tail, one);
    lemma_read_list(list.drop_first(), one, list[0]);
    assert(one.push(list[0]) + list.drop_first() =~= seq!["exec"@] + list);
}

/// Different texts are quoted differently.
pub proof fn quoting_is_injective(a: Seq<char>, b: Seq<char>)
    requires
        util::escaped(a) == util::escaped(b),
    ensures
        a == b,
{
    quoting_keeps_a_word(a);
    quoting_keeps_a_word(b);
    assert(seq![a][0] == seq![b][0]);
}

} // verus!
