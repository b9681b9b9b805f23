//! What is done with a line that was read from the terminal, before and
//! after the reading itself, which is the caller's.
use crate::repl::{is_whitespace, parsed, texts, whitespace, ReplCommandType, ReplError};
use vstd::prelude::*;
use vstd::string::{StrSliceExecFns, StringExecFns};

verus! {

/// The line without the newline that ends it, if one does.
pub open spec fn without_newline(line: Seq<char>) -> Seq<char> {
    if line.len() > 0 && line.last() == '\n' {
        line.drop_last()
    } else {
        line
    }
}

/// The words that were closed by white space so far, and the word that is
/// still open, after reading `line` from left to right.
pub open spec fn scanned(line: Seq<char>) -> (Seq<Seq<char>>, Seq<char>)
    decreases line.len(),
{
    if line.len() == 0 {
        (Seq::empty(), Seq::empty())
    } else {
        let (closed, open) = scanned(line.drop_last());
        if whitespace(line.last()) {
            if open.len() > 0 {
                (closed.push(open), Seq::empty())
            } else {
                (closed, open)
            }
        } else {
            (closed, open.push(line.last()))
        }
    }
}

/// The words of a line: its longest runs of characters that are no white
/// space, from left to right.
pub open spec fn words(line: Seq<char>) -> Seq<Seq<char>> {
    let (closed, open) = scanned(line);
    if open.len() > 0 {
        closed.push(open)
    } else {
        closed
    }
}

/// The texts that the strings hold.
pub open spec fn string_views(strings: Seq<String>) -> Seq<Seq<char>> {
    Seq::new(strings.len(), |i: int| strings[i]@)
}

/// True where `word` holds no white space.
pub open spec fn unbroken(word: Seq<char>) -> bool {
    forall|j: int| 0 <= j < word.len() ==> !whitespace(#[trigger] word[j])
}

/// No word of a line is empty, and no word holds white space.
pub proof fn lemma_words_are_words(line: Seq<char>)
    ensures
        forall|i: int|
            0 <= i < words(line).len() ==> (#[trigger] words(line)[i]).len() > 0 && unbroken(
                words(line)[i],
            ),
{
    lemma_scanned(line);
}

/// The words that a scan has closed are not empty, and neither they nor the
/// open word hold white space.
proof fn lemma_scanned(line: Seq<char>)
    ensures
        forall|i: int|
            0 <= i < scanned(line).0.len() ==> (#[trigger] scanned(line).0[i]).len() > 0
                && unbroken(scanned(line).0[i]),
        unbroken(scanned(line).1),
    decreases line.len(),
{
    if line.len() > 0 {
        lemma_scanned(line.drop_last());
        let (closed, open) = scanned(line.drop_last());
        let now = scanned(line);
        if whitespace(line.last()) {
            if open.len() > 0 {
                assert forall|i: int| 0 <= i < now.0.len() implies (#[trigger] now.0[i]).len() > 0
                    && unbroken(now.0[i]) by {
                    if i < closed.len() {
                        assert(now.0[i] == closed[i]);
                    } else {
                        assert(now.0[i] == open);
                    }
                }
            }
        } else {
            assert forall|j: int| 0 <= j < now.1.len() implies !whitespace(#[trigger] now.1[j]) by {
                if j < open.len() {
                    assert(now.1[j] == open[j]);
                }
            }
        }
    }
}

/// The namespace of what is done with lines from the terminal.
pub struct InputReader;

impl InputReader {
    /// The password in a line that was read: the line without its newline.
    pub fn read_password(line: &str) -> (password: &str)
        ensures
            password@ == without_newline(line@),
    {
        let length = line.unicode_len();
        if length > 0 && line.get_char(length - 1) == '\n' {
            line.substring_char(0, length - 1)
        } else {
            line
        }
    }

    /// The words of a line.
    pub fn split_words(line: &str) -> (r: Vec<String>)
        ensures
            string_views(r@) == words(line@),
    {
        let length = line.unicode_len();
        let mut closed: Vec<String> = Vec::new();
        let mut open = String::new();
        let mut open_length: usize = 0;
        let mut i: usize = 0;
        proof {
            assert(line@.take(0) =~= Seq::<char>::empty());
            assert(string_views(closed@) =~= Seq::<Seq<char>>::empty());
        }
        while i < length
            invariant
                i <= length,
                length == line@.len(),
                open_length == open@.len(),
                open_length <= i,
                (string_views(closed@), open@) == scanned(line@.take(i as int)),
            decreases length - i,
        {
            let c = line.get_char(i);
            proof {
                assert(line@.take(i + 1).drop_last() =~= line@.take(i as int));
                assert(line@.take(i + 1).last() == c);
            }
            if is_whitespace(c) {
                if open_length > 0 {
                    let ghost before = string_views(closed@);
                    closed.push(open);
                    proof {
                        assert(string_views(closed@) =~= before.push(open@));
                    }
                    open = String::new();
                    open_length = 0;
                }
            } else {
                let ghost before = open@;
                open.append(line.substring_char(i, i + 1));
                proof {
                    assert(open@ =~= before.push(c));
                }
                open_length += 1;
            }
            i += 1;
        }
        proof {
            assert(line@.take(i as int) =~= line@);
        }
        if open_length > 0 {
            let ghost before = string_views(closed@);
            closed.push(open);
            proof {
                assert(string_views(closed@) =~= before.push(open@));
            }
        }
        closed
    }

    /// The command in a line that was read.
    pub fn read_command(line: &str) -> (r: Result<ReplCommandType, ReplError>)
        ensures
            match parsed(words(line@)) {
                Ok(command) => r matches Ok(c) && c@ == command,
                Err(e) => r matches Err(x) && x == e,
            },
    {
        let owned = Self::split_words(line);
        let mut borrowed: Vec<&str> = Vec::new();
        let mut i: usize = 0;
        while i < owned.len()
            invariant
                i <= owned.len(),
                borrowed@.len() == i,
                forall|k: int| 0 <= k < i ==> (#[trigger] borrowed@[k])@ == owned@[k]@,
            decreases owned.len() - i,
        {
            borrowed.push(owned[i].as_str());
            i += 1;
        }
        proof {
            assert(texts(borrowed@) =~= string_views(owned@));
        }
        ReplCommandType::parse(borrowed.as_slice())
    }
}

} // verus!
