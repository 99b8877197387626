use crate::command::Command;
use crate::console::chars_of;
use crate::error::Error;
use vstd::prelude::*;

verus! {

impl Command {
    /// The word that writes this instruction in a program's text.
    pub open spec fn text(self) -> Seq<char> {
        match self {
            Command::Ao => "ao"@,
            Command::HuTao => "hutao"@,
            Command::XiangLing => "xiangling"@,
            Command::NingGuang => "ningguang"@,
            Command::KeQing => "keqing"@,
            Command::YeLan => "yelan"@,
            Command::Shogun => "shogun"@,
            Command::Ayaka => "ayaka"@,
            Command::Yoimiya => "yoimiya"@,
            Command::Miko => "miko"@,
            Command::Barbara => "barbara"@,
            Command::Klee => "klee"@,
        }
    }

    /// The word that writes this instruction in a program's text.
    pub fn token(&self) -> (r: &'static str)
        ensures
            r@ == self.text(),
    {
        match self {
            Command::Ao => "ao",
            Command::HuTao => "hutao",
            Command::XiangLing => "xiangling",
            Command::NingGuang => "ningguang",
            Command::KeQing => "keqing",
            Command::YeLan => "yelan",
            Command::Shogun => "shogun",
            Command::Ayaka => "ayaka",
            Command::Yoimiya => "yoimiya",
            Command::Miko => "miko",
            Command::Barbara => "barbara",
            Command::Klee => "klee",
        }
    }

    /// Decodes one word of a program's text. The match is exact and
    /// case-sensitive.
    pub fn from_token(word: &str) -> (r: Result<Command, Error>)
        ensures
            r == match word_command(word@) {
                Some(c) => Ok::<Command, Error>(c),
                None => Err(Error::Decode),
            },
    {
        let chars = chars_of(word);
        let words = vocabulary();
        assert(chars@.subrange(0, chars@.len() as int) =~= chars@);
        match lookup(&chars, 0, chars.len(), &words) {
            Some(c) => Ok(c),
            None => Err(Error::Decode),
        }
    }
}

/// The instruction that the word `t` writes, if it writes one.
pub open spec fn word_command(t: Seq<char>) -> Option<Command> {
    if exists|c: Command| #[trigger] c.text() == t {
        Some(choose|c: Command| #[trigger] c.text() == t)
    } else {
        None
    }
}

/// Where the first word of `s` ends: at its first space, or at its end.
pub open spec fn word_end(s: Seq<char>) -> int
    decreases s.len(),
{
    if s.len() == 0 || s[0] == ' ' {
        0
    } else {
        1 + word_end(s.drop_first())
    }
}

/// `done`, followed by what `rest` decodes to.
pub open spec fn followed(done: Seq<Command>, rest: Result<Seq<Command>, Error>) -> Result<
    Seq<Command>,
    Error,
> {
    match rest {
        Ok(more) => Ok(done + more),
        Err(e) => Err(e),
    }
}

/// The program that the text `s` writes: its words, parted by single spaces,
/// each decoded. A word that writes no instruction is an error; so is the
/// empty word that stands before, after or between spaces, or alone in an
/// empty text.
pub open spec fn program(s: Seq<char>) -> Result<Seq<Command>, Error>
    decreases s.len(),
{
    let k = word_end(s);
    match word_command(s.take(k)) {
        None => Err(Error::Decode),
        Some(c) => {
            if k >= s.len() {
                Ok(seq![c])
            } else {
                proof {
                    lemma_word_end_bounds(s);
                }
                followed(seq![c], program(s.skip(k + 1)))
            }
        },
    }
}

/// The first word of `s` ends within `s`.
pub proof fn lemma_word_end_bounds(s: Seq<char>)
    ensures
        0 <= word_end(s) <= s.len(),
    decreases s.len(),
{
    if !(s.len() == 0 || s[0] == ' ') {
        lemma_word_end_bounds(s.drop_first());
    }
}

/// No two instructions are written by the same word, and none by the empty
/// word or by one with a space in it.
pub proof fn lemma_text_distinct(a: Command, b: Command)
    ensures
        a.text() == b.text() ==> a == b,
        a.text().len() > 0,
        forall|i: int| 0 <= i < a.text().len() ==> a.text()[i] != ' ',
{
    reveal_strlit("ao");
    reveal_strlit("hutao");
    reveal_strlit("xiangling");
    reveal_strlit("ningguang");
    reveal_strlit("keqing");
    reveal_strlit("yelan");
    reveal_strlit("shogun");
    reveal_strlit("ayaka");
    reveal_strlit("yoimiya");
    reveal_strlit("miko");
    reveal_strlit("barbara");
    reveal_strlit("klee");
    if a.text() == b.text() {
        assert(a.text().len() == b.text().len());
        assert(a.text()[0] == b.text()[0]);
    }
}

/// Each instruction is decoded from its own word.
pub proof fn law_token_round_trip(c: Command)
    ensures
        word_command(c.text()) == Some(c),
{
    let found = choose|d: Command| #[trigger] d.text() == c.text();
    lemma_text_distinct(found, c);
}

/// The first word of `s` ends at `k` when no space stands before `k` and
/// one stands at it, or `s` ends there.
pub proof fn lemma_word_end(s: Seq<char>, k: int)
    requires
        0 <= k <= s.len(),
        forall|i: int| 0 <= i < k ==> #[trigger] s[i] != ' ',
        k < s.len() ==> s[k] == ' ',
    ensures
        word_end(s) == k,
    decreases k,
{
    if k > 0 {
        let rest = s.drop_first();
        assert forall|i: int| 0 <= i < k - 1 implies #[trigger] rest[i] != ' ' by {
            assert(rest[i] == s[i + 1]);
        }
        lemma_word_end(rest, k - 1);
    }
}

/// The words of the twelve instructions, each at the index of its code.
fn vocabulary() -> (words: Vec<Vec<char>>)
    ensures
        words.len() == 12,
        forall|k: int| 0 <= k < 12 ==> (#[trigger] Command::of_code(k)) is Some && words[k]@
            == Command::of_code(k).unwrap().text(),
{
    let mut words: Vec<Vec<char>> = Vec::new();
    let mut k: i32 = 0;
    while k < 12
        invariant
            0 <= k <= 12,
            words.len() == k,
            forall|j: int| 0 <= j < k ==> (#[trigger] Command::of_code(j)) is Some && words[j]@
                == Command::of_code(j).unwrap().text(),
        decreases 12 - k,
    {
        match Command::from_code(k) {
            Ok(c) => {
                words.push(chars_of(c.token()));
            },
            Err(_) => {},
        }
        k = k + 1;
    }
    words
}

/// Tells whether the characters of `chars` from `from` up to `to` are those
/// of `word`.
fn same(chars: &Vec<char>, from: usize, to: usize, word: &Vec<char>) -> (r: bool)
    requires
        from <= to <= chars.len(),
    ensures
        r == (chars@.subrange(from as int, to as int) == word@),
{
    let ghost part = chars@.subrange(from as int, to as int);
    if to - from != word.len() {
        return false;
    }
    let mut i: usize = 0;
    while i < word.len()
        invariant
            from <= to <= chars.len(),
            to - from == word.len(),
            i <= word.len(),
            part == chars@.subrange(from as int, to as int),
            forall|j: int| 0 <= j < i ==> part[j] == word@[j],
        decreases word.len() - i,
    {
        if chars[from + i] != word[i] {
            assert(part[i as int] != word@[i as int]);
            return false;
        }
        i = i + 1;
    }
    assert(part =~= word@);
    true
}

/// Decodes the word that stands in `chars` from `from` up to `to`.
fn lookup(chars: &Vec<char>, from: usize, to: usize, words: &Vec<Vec<char>>) -> (r: Option<
    Command,
>)
    requires
        from <= to <= chars.len(),
        words.len() == 12,
        forall|k: int| 0 <= k < 12 ==> (#[trigger] Command::of_code(k)) is Some && words[k]@
            == Command::of_code(k).unwrap().text(),
    ensures
        r == word_command(chars@.subrange(from as int, to as int)),
{
    let ghost part = chars@.subrange(from as int, to as int);
    let mut k: i32 = 0;
    while k < 12
        invariant
            0 <= k <= 12,
            from <= to <= chars.len(),
            part == chars@.subrange(from as int, to as int),
            words.len() == 12,
            forall|j: int| 0 <= j < 12 ==> (#[trigger] Command::of_code(j)) is Some && words[j]@
                == Command::of_code(j).unwrap().text(),
            forall|j: int| 0 <= j < k ==> (#[trigger] Command::of_code(j)).unwrap().text() != part,
        decreases 12 - k,
    {
        if same(chars, from, to, &words[k as usize]) {
            match Command::from_code(k) {
                Ok(c) => {
                    proof {
                        law_token_round_trip(c);
                    }
                    return Some(c);
                },
                Err(_) => {},
            }
        }
        k = k + 1;
    }
    proof {
        assert forall|c: Command| #[trigger] c.text() != part by {
            crate::command::law_code_round_trip(c, c.code());
            assert(Command::of_code(c.code()).unwrap() == c);
        }
    }
    None
}

/// Decodes the text of a program: words parted by single spaces.
#[verifier::loop_isolation(false)]
pub fn parse_commands(content: String) -> (r: Result<Vec<Command>, Error>)
    ensures
        match program(content@) {
            Ok(commands) => r is Ok && r.unwrap()@ == commands,
            Err(e) => r == Err::<Vec<Command>, Error>(e),
        },
{
    let chars = chars_of(content.as_str());
    let words = vocabulary();
    let n: usize = chars.len();
    let ghost all = chars@;
    let mut out: Vec<Command> = Vec::new();
    let mut start: usize = 0;
    assert(all.skip(0) =~= all);
    assert(program(all) == followed(out@, program(all.skip(0)))) by {
        match program(all) {
            Ok(p) => {
                assert(Seq::<Command>::empty() + p =~= p);
            },
            Err(_) => {},
        }
    }
    loop
        invariant
            n == chars.len(),
            all == chars@,
            start <= n,
            words.len() == 12,
            forall|k: int| 0 <= k < 12 ==> (#[trigger] Command::of_code(k)) is Some && words[k]@
                == Command::of_code(k).unwrap().text(),
            program(all) == followed(out@, program(all.skip(start as int))),
        decreases n - start,
    {
        let ghost rest = all.skip(start as int);
        let mut end: usize = start;
        while end < n && chars[end] != ' '
            invariant
                n == chars.len(),
                all == chars@,
                start <= end <= n,
                forall|i: int| start <= i < end ==> #[trigger] all[i] != ' ',
            decreases n - end,
        {
            end = end + 1;
        }
        proof {
            assert forall|i: int| 0 <= i < end - start implies #[trigger] rest[i] != ' ' by {
                assert(rest[i] == all[i + start]);
            }
            lemma_word_end(rest, end - start);
            assert(rest.take(end - start) =~= all.subrange(start as int, end as int));
        }
        match lookup(&chars, start, end, &words) {
            None => {
                return Err(Error::Decode);
            },
            Some(c) => {
                let ghost before = out@;
                out.push(c);
                if end == n {
                    assert(out@ =~= before + seq![c]);
                    return Ok(out);
                }
                proof {
                    assert(rest.skip(end - start + 1) =~= all.skip(end + 1));
                    match program(all.skip(end + 1)) {
                        Ok(more) => {
                            assert(before + (seq![c] + more) =~= out@ + more);
                        },
                        Err(_) => {},
                    }
                }
                start = end + 1;
            },
        }
    }
}

} // verus!
