//! The Kilnfile format: a small instruction set, one instruction per logical
//! line.
//!
//! - `VERB rest-of-line`; the verb is case-insensitive.
//! - Blank lines and lines whose first character is `#` are ignored.
//! - A line that ends in a backslash continues on the next line; the
//!   backslash becomes a single space.
//! - `COPY <src> <dst>` takes exactly two arguments; `ENV key=value` and
//!   `ENV key value` are both accepted; `EXPOSE <port>` means `<port>/tcp`.

use crate::codec::{quoted, quoted_text};
use crate::error::Error;
use crate::num::{decimal, parse_unsigned, parsed_unsigned};
use crate::text::{
    cat2, cat3, cut_first, cut_white, is_white, joined, joined_words_come_back, lemma_lines_behind, lines, lines_of, split_once, split_once_white,
    split_whitespace, str_eq, to_ascii_uppercase, trim, trim_end, trimmed, trimmed_end, trimmed_start,
    trimmed_texts_stay, uppercased, views, words, words_end_at_white_space, single_words_are_not_cut,
};
use vstd::prelude::*;

verus! {

/// One instruction of a Kilnfile.
#[derive(Debug)]
pub enum Instruction {
    From { image: String },
    Run { command: String },
    Copy { src: String, dst: String },
    Env { key: String, value: String },
    Cmd { command: String },
    Expose { port: u16, proto: String },
    Workdir { path: String },
}

/// The mathematical content of an [`Instruction`].
pub enum InstructionView {
    From { image: Seq<char> },
    Run { command: Seq<char> },
    Copy { src: Seq<char>, dst: Seq<char> },
    Env { key: Seq<char>, value: Seq<char> },
    Cmd { command: Seq<char> },
    Expose { port: u16, proto: Seq<char> },
    Workdir { path: Seq<char> },
}

impl View for Instruction {
    type V = InstructionView;

    open spec fn view(&self) -> InstructionView {
        match *self {
            Instruction::From { image } => InstructionView::From { image: image@ },
            Instruction::Run { command } => InstructionView::Run { command: command@ },
            Instruction::Copy { src, dst } => InstructionView::Copy { src: src@, dst: dst@ },
            Instruction::Env { key, value } => InstructionView::Env { key: key@, value: value@ },
            Instruction::Cmd { command } => InstructionView::Cmd { command: command@ },
            Instruction::Expose { port, proto } => InstructionView::Expose { port, proto: proto@ },
            Instruction::Workdir { path } => InstructionView::Workdir { path: path@ },
        }
    }
}

/// The contents of a sequence of instructions.
pub open spec fn instruction_views(v: Seq<Instruction>) -> Seq<InstructionView> {
    v.map_values(|i: Instruction| i@)
}

/// The verb and the trimmed remainder of an instruction line.
pub open spec fn verb_and_rest(line: Seq<char>) -> (Seq<char>, Seq<char>) {
    match cut_white(line) {
        Some((verb, rest)) => (verb, trimmed(rest)),
        None => (line, ""@),
    }
}

/// The name and value of an `ENV` instruction.
pub open spec fn env_parts(rest: Seq<char>) -> Option<(Seq<char>, Seq<char>)> {
    match cut_first(rest, '=') {
        Some((k, v)) => Some((trimmed(k), trimmed(v))),
        None => match cut_white(rest) {
            Some((k, v)) => Some((trimmed(k), trimmed(v))),
            None => None,
        },
    }
}

/// The port text and the protocol of an `EXPOSE` instruction.
pub open spec fn expose_parts(rest: Seq<char>) -> (Seq<char>, Seq<char>) {
    match cut_first(rest, '/') {
        Some((port, proto)) => (port, proto),
        None => (rest, "tcp"@),
    }
}

/// The instruction that a line stands for, or what is wrong with it.
pub open spec fn instruction_of(line: Seq<char>) -> Result<InstructionView, Seq<char>> {
    let (raw_verb, rest) = verb_and_rest(line);
    let verb = uppercased(raw_verb);
    if verb == "FROM"@ {
        if rest.len() == 0 {
            Err("FROM requires an image reference"@)
        } else {
            Ok(InstructionView::From { image: rest })
        }
    } else if verb == "RUN"@ {
        if rest.len() == 0 {
            Err("RUN requires a command"@)
        } else {
            Ok(InstructionView::Run { command: rest })
        }
    } else if verb == "COPY"@ {
        let w = words(rest);
        if w.len() < 2 {
            Err("COPY requires <src> <dst>"@)
        } else if w.len() > 2 {
            Err("COPY takes exactly two arguments (multi-source COPY is not supported)"@)
        } else {
            Ok(InstructionView::Copy { src: w[0], dst: w[1] })
        }
    } else if verb == "ENV"@ {
        match env_parts(rest) {
            Some((key, value)) => Ok(InstructionView::Env { key, value }),
            None => Err("ENV requires key=value or key value"@),
        }
    } else if verb == "CMD"@ {
        if rest.len() == 0 {
            Err("CMD requires a command"@)
        } else {
            Ok(InstructionView::Cmd { command: rest })
        }
    } else if verb == "EXPOSE"@ {
        let (port, proto) = expose_parts(rest);
        match parsed_unsigned(trimmed(port), 65535) {
            Some(n) => Ok(InstructionView::Expose { port: n as u16, proto }),
            None => Err("invalid port "@ + quoted_text(port)),
        }
    } else if verb == "WORKDIR"@ {
        if rest.len() == 0 {
            Err("WORKDIR requires a path"@)
        } else {
            Ok(InstructionView::Workdir { path: rest })
        }
    } else {
        Err(
            "unknown instruction "@ + quoted_text(verb)
                + " (expected one of FROM, RUN, COPY, ENV, CMD, EXPOSE, WORKDIR)"@,
        )
    }
}

/// What a parse comes to: the instructions, or a line number and what is
/// wrong there.
pub type Parsed = Result<Seq<InstructionView>, (nat, Seq<char>)>;

/// What is said of a file that ends inside a continued line.
pub open spec fn unfinished() -> Seq<char> {
    "file ends mid line-continuation (trailing '\\' with nothing after it)"@
}

/// The instructions of `lines[i..]`, where `pending` is what earlier lines
/// continued and `start` is the line on which it began.
pub open spec fn parsed_from(lines: Seq<Seq<char>>, i: nat, pending: Seq<char>, start: nat) -> Parsed
    decreases lines.len() - i,
{
    if i >= lines.len() {
        if trimmed(pending).len() == 0 {
            Ok(Seq::empty())
        } else {
            Err((start, unfinished()))
        }
    } else {
        let line = trimmed_end(lines[i as int]);
        let first: nat = if pending.len() == 0 {
            i + 1
        } else {
            start
        };
        if line.len() > 0 && line.last() == '\\' {
            parsed_from(lines, i + 1, pending + trimmed_end(line.drop_last()) + " "@, first)
        } else {
            let full = trimmed(pending + line);
            let rest = parsed_from(lines, i + 1, ""@, first);
            if full.len() == 0 || full[0] == '#' {
                rest
            } else {
                match instruction_of(full) {
                    Err(m) => Err((first, m)),
                    Ok(ins) => after(seq![ins], rest),
                }
            }
        }
    }
}

/// A parse result with `first` in front.
pub open spec fn after(first: Seq<InstructionView>, rest: Parsed) -> Parsed {
    match rest {
        Ok(s) => Ok(first + s),
        Err(e) => Err(e),
    }
}

/// The instructions of a Kilnfile.
pub open spec fn parsed(source: Seq<char>) -> Parsed {
    parsed_from(lines_of(source), 0, ""@, 1)
}

/// A parse error on the given line.
fn parse_error(line: usize, message: String) -> (r: Error)
    ensures
        r == (Error::KilnfileParse { line, message }),
{
    Error::KilnfileParse { line, message }
}

/// The instruction that `line` stands for.
pub fn parse_instruction(line: &str, line_no: usize) -> (r: Result<Instruction, Error>)
    ensures
        match r {
            Ok(i) => instruction_of(line@) == Ok::<InstructionView, Seq<char>>(i@),
            Err(e) => e matches Error::KilnfileParse { line: n, message } && n == line_no
                && instruction_of(line@) == Err::<InstructionView, Seq<char>>(message@),
        },
{
    let (raw_verb, rest): (&str, &str) = match split_once_white(line) {
        Some((v, r)) => (v, trim(r)),
        None => (line, ""),
    };
    proof {
        reveal_strlit("");
        assert(rest@.len() == 0 ==> rest@ =~= ""@);
    }
    let owned = to_ascii_uppercase(raw_verb);
    let verb: &str = owned.as_str();
    if str_eq(verb, "FROM") {
        if rest.is_empty() {
            return Err(parse_error(line_no, "FROM requires an image reference".to_owned()));
        }
        Ok(Instruction::From { image: rest.to_owned() })
    } else if str_eq(verb, "RUN") {
        if rest.is_empty() {
            return Err(parse_error(line_no, "RUN requires a command".to_owned()));
        }
        Ok(Instruction::Run { command: rest.to_owned() })
    } else if str_eq(verb, "COPY") {
        let parts = split_whitespace(rest);
        assert(views(parts@).len() == parts@.len());
        if parts.len() < 2 {
            return Err(parse_error(line_no, "COPY requires <src> <dst>".to_owned()));
        }
        if parts.len() > 2 {
            return Err(
                parse_error(
                    line_no,
                    "COPY takes exactly two arguments (multi-source COPY is not supported)".to_owned(),
                ),
            );
        }
        assert(views(parts@)[0] == parts@[0]@);
        assert(views(parts@)[1] == parts@[1]@);
        Ok(Instruction::Copy { src: parts[0].clone(), dst: parts[1].clone() })
    } else if str_eq(verb, "ENV") {
        match split_once(rest, '=') {
            Some((k, v)) => Ok(
                Instruction::Env { key: trim(k).to_owned(), value: trim(v).to_owned() },
            ),
            None => match split_once_white(rest) {
                Some((k, v)) => Ok(
                    Instruction::Env { key: trim(k).to_owned(), value: trim(v).to_owned() },
                ),
                None => Err(parse_error(line_no, "ENV requires key=value or key value".to_owned())),
            },
        }
    } else if str_eq(verb, "CMD") {
        if rest.is_empty() {
            return Err(parse_error(line_no, "CMD requires a command".to_owned()));
        }
        Ok(Instruction::Cmd { command: rest.to_owned() })
    } else if str_eq(verb, "EXPOSE") {
        let (port, proto): (&str, &str) = match split_once(rest, '/') {
            Some((p, q)) => (p, q),
            None => (rest, "tcp"),
        };
        match parse_unsigned(trim(port), 65535) {
            Some(n) => Ok(Instruction::Expose { port: n as u16, proto: proto.to_owned() }),
            None => {
                let q = quoted(port);
                Err(parse_error(line_no, cat2("invalid port ", q.as_str())))
            },
        }
    } else if str_eq(verb, "WORKDIR") {
        if rest.is_empty() {
            return Err(parse_error(line_no, "WORKDIR requires a path".to_owned()));
        }
        Ok(Instruction::Workdir { path: rest.to_owned() })
    } else {
        let q = quoted(verb);
        Err(
            parse_error(
                line_no,
                cat3(
                    "unknown instruction ",
                    q.as_str(),
                    " (expected one of FROM, RUN, COPY, ENV, CMD, EXPOSE, WORKDIR)",
                ),
            ),
        )
    }
}

/// The instructions of a Kilnfile, or the first error with the number of the
/// line on which its logical line began.
pub fn parse(source: &str) -> (r: Result<Vec<Instruction>, Error>)
    ensures
        match r {
            Ok(v) => parsed(source@) == Ok::<Seq<InstructionView>, (nat, Seq<char>)>(
                instruction_views(v@),
            ),
            Err(e) => e matches Error::KilnfileParse { line, message } && parsed(source@) == Err::<
                Seq<InstructionView>,
                (nat, Seq<char>),
            >((line as nat, message@)),
        },
{
    let all = lines(source);
    let ghost texts = lines_of(source@);
    let mut out: Vec<Instruction> = Vec::new();
    let mut pending = String::new();
    let mut start: usize = 1;
    let mut i: usize = 0;
    proof {
        reveal_strlit("");
        assert(pending@ =~= ""@);
        assert(instruction_views(out@) =~= Seq::<InstructionView>::empty());
        let whole = parsed_from(texts, 0, ""@, 1);
        assert(whole matches Ok(s) ==> Seq::<InstructionView>::empty() + s =~= s);
        assert(after(instruction_views(out@), whole) == whole);
    }
    while i < all.len()
        invariant
            i <= all@.len(),
            texts == views(all@),
            texts == lines_of(source@),
            parsed(source@) == after(
                instruction_views(out@),
                parsed_from(texts, i as nat, pending@, start as nat),
            ),
        decreases all.len() - i,
    {
        let line = trim_end(all[i].as_str());
        assert(texts[i as int] == all@[i as int]@);
        if pending.as_str().is_empty() {
            start = i + 1;
        }
        let n = line.unicode_len();
        if n > 0 && line.get_char(n - 1) == '\\' {
            let kept = trim_end(line.substring_char(0, n - 1));
            assert(line@.subrange(0, n - 1) =~= line@.drop_last());
            pending.append(kept);
            pending.append(" ");
            i += 1;
            continue ;
        }
        pending.append(line);
        let full = pending;
        pending = String::new();
        proof {
            reveal_strlit("");
            assert(pending@ =~= ""@);
        }
        let trimmed_full = trim(full.as_str());
        i += 1;
        if trimmed_full.is_empty() || trimmed_full.get_char(0) == '#' {
            continue ;
        }
        match parse_instruction(trimmed_full, start) {
            Ok(ins) => {
                proof {
                    let before = instruction_views(out@);
                    let rest = parsed_from(texts, i as nat, pending@, start as nat);
                    assert(instruction_views(out@.push(ins)) =~= before.push(ins@));
                    if rest is Ok {
                        assert(before + (seq![ins@] + rest->Ok_0) =~= before.push(ins@) + rest->Ok_0);
                    }
                }
                out.push(ins);
            },
            Err(e) => {
                return Err(e);
            },
        }
    }
    if !trim(pending.as_str()).is_empty() {
        return Err(
            parse_error(
                start,
                "file ends mid line-continuation (trailing '\\' with nothing after it)".to_owned(),
            ),
        );
    }
    assert(instruction_views(out@) + Seq::<InstructionView>::empty() =~= instruction_views(out@));
    Ok(out)
}

/// The case of the verb never matters.
pub proof fn verbs_are_case_insensitive(a: Seq<char>, b: Seq<char>)
    requires
        uppercased(verb_and_rest(a).0) == uppercased(verb_and_rest(b).0),
        verb_and_rest(a).1 == verb_and_rest(b).1,
    ensures
        instruction_of(a) == instruction_of(b),
{
}

/// Whether two parses come to the same, whatever the numbers of their lines.
pub open spec fn agree(a: Parsed, b: Parsed) -> bool {
    match (a, b) {
        (Ok(x), Ok(y)) => x == y,
        (Err(x), Err(y)) => x.1 == y.1,
        _ => false,
    }
}

/// Whether a line continues on the next.
pub open spec fn continues(line: Seq<char>) -> bool {
    trimmed_end(line).len() > 0 && trimmed_end(line).last() == '\\'
}

/// Only what follows matters to a parse, apart from the numbers of lines.
proof fn lemma_same_rest(a: Seq<Seq<char>>, i: nat, b: Seq<Seq<char>>, j: nat, pending: Seq<char>, s: nat, t: nat)
    requires
        i <= a.len(),
        j <= b.len(),
        a.skip(i as int) == b.skip(j as int),
    ensures
        agree(parsed_from(a, i, pending, s), parsed_from(b, j, pending, t)),
    decreases a.len() - i,
{
    assert(a.len() - i == a.skip(i as int).len());
    assert(b.len() - j == b.skip(j as int).len());
    if i < a.len() {
        assert(a[i as int] == a.skip(i as int)[0]);
        assert(b[j as int] == b.skip(j as int)[0]);
        assert(a.skip(i as int + 1) =~= a.skip(i as int).skip(1));
        assert(b.skip(j as int + 1) =~= b.skip(j as int).skip(1));
        let line = trimmed_end(a[i as int]);
        let p: nat = if pending.len() == 0 {
            i + 1
        } else {
            s
        };
        let q: nat = if pending.len() == 0 {
            j + 1
        } else {
            t
        };
        let longer = pending + trimmed_end(line.drop_last()) + " "@;
        lemma_same_rest(a, i + 1, b, j + 1, longer, p, q);
        lemma_same_rest(a, i + 1, b, j + 1, ""@, p, q);
    }
}

/// Files with the same lines up to `i`, where no line continues, agree if
/// they agree from there on.
proof fn lemma_same_start(a: Seq<Seq<char>>, b: Seq<Seq<char>>, i: nat, k: nat, pending: Seq<char>, s: nat)
    requires
        k <= i <= a.len(),
        i <= b.len(),
        a.take(i as int) == b.take(i as int),
        k == i ==> pending == ""@,
        i > 0 ==> !continues(a[i - 1]),
        forall|t: nat| #[trigger] agree(parsed_from(a, i, ""@, t), parsed_from(b, i, ""@, t)),
    ensures
        agree(parsed_from(a, k, pending, s), parsed_from(b, k, pending, s)),
    decreases i - k,
{
    if k < i {
        assert(a[k as int] == a.take(i as int)[k as int]);
        assert(b[k as int] == b.take(i as int)[k as int]);
        let line = trimmed_end(a[k as int]);
        let first: nat = if pending.len() == 0 {
            k + 1
        } else {
            s
        };
        if continues(a[k as int]) {
            lemma_same_start(a, b, i, k + 1, pending + trimmed_end(line.drop_last()) + " "@, first);
        } else {
            lemma_same_start(a, b, i, k + 1, ""@, first);
        }
    } else {
        assert(agree(parsed_from(a, i, ""@, s), parsed_from(b, i, ""@, s)));
    }
}

/// Blank lines and comments are ignored: a file parses the same without such
/// a line, unless the line before it continues on it, or it ends in a
/// backslash itself.
pub proof fn comment_lines_are_ignored(lines: Seq<Seq<char>>, i: nat)
    requires
        i < lines.len(),
        i > 0 ==> !continues(lines[i - 1]),
        !continues(lines[i as int]),
        ({
            let text = trimmed(trimmed_end(lines[i as int]));
            text.len() == 0 || text[0] == '#'
        }),
    ensures
        agree(parsed_from(lines, 0, ""@, 1), parsed_from(lines.remove(i as int), 0, ""@, 1)),
{
    reveal_strlit("");
    let without = lines.remove(i as int);
    let line = trimmed_end(lines[i as int]);
    assert(""@ + line =~= line);
    assert(lines.skip(i as int + 1) =~= without.skip(i as int));
    assert(lines.take(i as int) =~= without.take(i as int));
    assert forall|t: nat| #[trigger] agree(parsed_from(lines, i, ""@, t), parsed_from(without, i, ""@, t)) by {
        assert(parsed_from(lines, i, ""@, t) == parsed_from(lines, i + 1, ""@, i + 1));
        lemma_same_rest(lines, i + 1, without, i, ""@, i + 1, t);
    }
    lemma_same_start(lines, without, i, 0, ""@, 1);
}

/// White space in front of a text is trimmed with the text's own.
proof fn lemma_trimmed_front(w: Seq<char>, r: Seq<char>)
    requires
        trimmed_start(w).len() == 0,
    ensures
        trimmed_start(w + r) == trimmed_start(r),
    decreases w.len(),
{
    if w.len() == 0 {
        assert(w + r =~= r);
    } else {
        assert((w + r).drop_first() =~= w.drop_first() + r);
        lemma_trimmed_front(w.drop_first(), r);
    }
}

/// What trims to nothing is white space throughout.
proof fn lemma_all_white(p: Seq<char>)
    requires
        trimmed(p).len() == 0,
    ensures
        trimmed_start(p).len() == 0,
    decreases p.len(),
{
    if p.len() > 0 && is_white(p[0]) {
        lemma_all_white(p.drop_first());
    } else if p.len() > 0 {
        lemma_end_keeps_first(p);
    }
}

/// Trimming the end keeps a text whose first character is no white space.
proof fn lemma_end_keeps_first(p: Seq<char>)
    requires
        p.len() > 0,
        !is_white(p[0]),
    ensures
        trimmed_end(p).len() > 0,
    decreases p.len(),
{
    if is_white(p.last()) {
        lemma_end_keeps_first(p.drop_last());
    }
}

/// White space in front of what is continued does not change a parse.
proof fn lemma_blank_front(
    a: Seq<Seq<char>>,
    i: nat,
    b: Seq<Seq<char>>,
    j: nat,
    w: Seq<char>,
    pending: Seq<char>,
    s: nat,
    t: nat,
)
    requires
        i <= a.len(),
        j <= b.len(),
        a.skip(i as int) == b.skip(j as int),
        trimmed_start(w).len() == 0,
    ensures
        agree(parsed_from(a, i, w + pending, s), parsed_from(b, j, pending, t)),
    decreases a.len() - i,
{
    assert(a.len() - i == a.skip(i as int).len());
    assert(b.len() - j == b.skip(j as int).len());
    lemma_trimmed_front(w, pending);
    if i < a.len() {
        assert(a[i as int] == a.skip(i as int)[0]);
        assert(b[j as int] == b.skip(j as int)[0]);
        assert(a.skip(i as int + 1) =~= a.skip(i as int).skip(1));
        assert(b.skip(j as int + 1) =~= b.skip(j as int).skip(1));
        let line = trimmed_end(a[i as int]);
        let p: nat = if (w + pending).len() == 0 {
            i + 1
        } else {
            s
        };
        let q: nat = if pending.len() == 0 {
            j + 1
        } else {
            t
        };
        if line.len() > 0 && line.last() == '\\' {
            let more = trimmed_end(line.drop_last());
            lemma_blank_front(a, i + 1, b, j + 1, w, pending + more + " "@, p, q);
            assert(w + pending + more + " "@ =~= w + (pending + more + " "@));
        } else {
            lemma_same_rest(a, i + 1, b, j + 1, ""@, p, q);
            lemma_trimmed_front(w, pending + line);
            assert(w + pending + line =~= w + (pending + line));
        }
    }
}

/// The instructions of lines are followed by those of the lines behind them.
proof fn lemma_instructions_follow(
    a: Seq<Seq<char>>,
    b: Seq<Seq<char>>,
    i: nat,
    pending: Seq<char>,
    s: nat,
    x: Seq<InstructionView>,
    y: Seq<InstructionView>,
)
    requires
        i <= a.len(),
        parsed_from(a, i, pending, s) == Ok::<Seq<InstructionView>, (nat, Seq<char>)>(x),
        parsed_from(b, 0, ""@, 1) == Ok::<Seq<InstructionView>, (nat, Seq<char>)>(y),
    ensures
        parsed_from(a + b, i, pending, s) == Ok::<Seq<InstructionView>, (nat, Seq<char>)>(x + y),
    decreases a.len() - i,
{
    let both = a + b;
    if i == a.len() {
        lemma_all_white(pending);
        assert(both.skip(i as int) =~= b.skip(0));
        lemma_blank_front(both, i, b, 0, pending, ""@, s, 1);
        reveal_strlit("");
        assert(pending + ""@ =~= pending);
        assert(x + y =~= y);
    } else {
        assert(both[i as int] == a[i as int]);
        let line = trimmed_end(a[i as int]);
        let first: nat = if pending.len() == 0 {
            i + 1
        } else {
            s
        };
        if line.len() > 0 && line.last() == '\\' {
            lemma_instructions_follow(a, b, i + 1, pending + trimmed_end(line.drop_last()) + " "@, first, x, y);
        } else {
            let full = trimmed(pending + line);
            let rest = parsed_from(a, i + 1, ""@, first);
            assert(rest is Ok);
            lemma_instructions_follow(a, b, i + 1, ""@, first, rest->Ok_0, y);
            if full.len() == 0 || full[0] == '#' {
            } else {
                let ins = instruction_of(full)->Ok_0;
                assert(seq![ins] + (rest->Ok_0 + y) =~= x + y);
            }
        }
    }
}

/// Instructions come in the order of the source, none lost or repeated: a
/// file behind another that ends its last line adds its instructions to that
/// file's.
pub proof fn files_follow_one_another(
    a: Seq<char>,
    b: Seq<char>,
    x: Seq<InstructionView>,
    y: Seq<InstructionView>,
)
    requires
        a.len() > 0 ==> a.last() == '\n',
        parsed(a) == Ok::<Seq<InstructionView>, (nat, Seq<char>)>(x),
        parsed(b) == Ok::<Seq<InstructionView>, (nat, Seq<char>)>(y),
    ensures
        parsed(a + b) == Ok::<Seq<InstructionView>, (nat, Seq<char>)>(x + y),
{
    lemma_lines_behind(a, b);
    lemma_instructions_follow(lines_of(a), lines_of(b), 0, ""@, 1, x, y);
}

/// White space is trimmed from the end of the last part only.
proof fn lemma_trimmed_tail(a: Seq<char>, b: Seq<char>)
    requires
        trimmed_end(b).len() > 0,
    ensures
        trimmed_end(a + b) == a + trimmed_end(b),
    decreases b.len(),
{
    if b.len() > 0 {
        assert((a + b).last() == b.last());
        assert((a + b).drop_last() =~= a + b.drop_last());
        if is_white(b.last()) {
            lemma_trimmed_tail(a, b.drop_last());
        }
    }
}

/// A line that ends in a backslash and the line after it read as one, with a
/// single space in place of the backslash and the white space before it. The
/// line after it must hold something besides a backslash of its own.
pub proof fn continued_lines_are_one(lines: Seq<Seq<char>>, i: nat)
    requires
        i + 1 < lines.len(),
        i > 0 ==> !continues(lines[i - 1]),
        continues(lines[i as int]),
        trimmed_end(lines[i as int + 1]).len() > 0,
        continues(lines[i as int + 1]) ==> trimmed_end(trimmed_end(lines[i as int + 1]).drop_last()).len() > 0,
    ensures
        ({
            let one = trimmed_end(trimmed_end(lines[i as int]).drop_last()) + " "@ + lines[i as int + 1];
            let joined = lines.remove(i as int).update(i as int, one);
            agree(parsed_from(lines, 0, ""@, 1), parsed_from(joined, 0, ""@, 1))
        }),
{
    reveal_strlit("");
    reveal_strlit(" ");
    let kept = trimmed_end(trimmed_end(lines[i as int]).drop_last());
    let head = kept + " "@;
    let next = trimmed_end(lines[i as int + 1]);
    let joined = lines.remove(i as int).update(i as int, head + lines[i as int + 1]);
    assert(lines.take(i as int) =~= joined.take(i as int));
    assert(lines.skip(i as int + 2) =~= joined.skip(i as int + 1));
    lemma_trimmed_tail(head, lines[i as int + 1]);
    assert(joined[i as int] == head + lines[i as int + 1]);
    assert(trimmed_end(joined[i as int]) == head + next);
    assert((head + next).last() == next.last());
    assert(""@ + head =~= head);
    assert(""@ + (head + next) =~= head + next);
    assert forall|t: nat| #[trigger] agree(parsed_from(lines, i, ""@, t), parsed_from(joined, i, ""@, t)) by {
        assert(""@ + kept + " "@ =~= head);
        assert(parsed_from(lines, i, ""@, t) == parsed_from(lines, i + 1, head, i + 1));
        if continues(lines[i as int + 1]) {
            let longer = head + trimmed_end(next.drop_last()) + " "@;
            assert((head + next).drop_last() =~= head + next.drop_last());
            lemma_trimmed_tail(head, next.drop_last());
            assert(""@ + trimmed_end((head + next).drop_last()) + " "@ =~= longer);
            assert(parsed_from(lines, i + 1, head, i + 1) == parsed_from(lines, i + 2, longer, i + 1));
            assert(parsed_from(joined, i, ""@, t) == parsed_from(joined, i + 1, longer, i + 1));
            lemma_same_rest(lines, i + 2, joined, i + 1, longer, i + 1, i + 1);
        } else {
            lemma_same_rest(lines, i + 2, joined, i + 1, ""@, i + 1, i + 1);
        }
    }
    lemma_same_start(lines, joined, i, 0, ""@, 1);
}

// ---- What each instruction says --------------------------------------------

/// Whether a text holds something and has no white space at its ends.
pub open spec fn well_set(s: Seq<char>) -> bool {
    s.len() > 0 && !is_white(s[0]) && !is_white(s.last())
}

/// Whether a text is free of white space.
pub open spec fn unbroken(s: Seq<char>) -> bool {
    forall|i: int| 0 <= i < s.len() ==> !is_white(#[trigger] s[i])
}

/// The verb ends at the first blank, and the rest is what follows it.
proof fn lemma_line(verb: Seq<char>, rest: Seq<char>)
    requires
        unbroken(verb),
        rest.len() > 0 ==> well_set(rest),
    ensures
        verb_and_rest(verb + seq![' '] + rest) == (verb, rest),
{
    words_end_at_white_space(verb, ' ', rest);
    trimmed_texts_stay(rest);
}

/// The verbs are words in upper case, no two of them the same.
proof fn lemma_verbs()
    ensures
        forall|v: Seq<char>|
            v == "FROM"@ || v == "RUN"@ || v == "COPY"@ || v == "ENV"@ || v == "CMD"@ || v == "EXPOSE"@ || v
                == "WORKDIR"@ ==> #[trigger] uppercased(v) == v && unbroken(v),
        "FROM"@ != "RUN"@,
        "FROM"@ != "COPY"@,
        "FROM"@ != "ENV"@,
        "FROM"@ != "CMD"@,
        "FROM"@ != "EXPOSE"@,
        "FROM"@ != "WORKDIR"@,
        "RUN"@ != "COPY"@,
        "RUN"@ != "ENV"@,
        "RUN"@ != "CMD"@,
        "RUN"@ != "EXPOSE"@,
        "RUN"@ != "WORKDIR"@,
        "COPY"@ != "ENV"@,
        "COPY"@ != "CMD"@,
        "COPY"@ != "EXPOSE"@,
        "COPY"@ != "WORKDIR"@,
        "ENV"@ != "CMD"@,
        "ENV"@ != "EXPOSE"@,
        "ENV"@ != "WORKDIR"@,
        "CMD"@ != "EXPOSE"@,
        "CMD"@ != "WORKDIR"@,
        "EXPOSE"@ != "WORKDIR"@,
{
    reveal_strlit("FROM");
    reveal_strlit("RUN");
    reveal_strlit("COPY");
    reveal_strlit("ENV");
    reveal_strlit("CMD");
    reveal_strlit("EXPOSE");
    reveal_strlit("WORKDIR");
    assert("FROM"@[0] == 'F' && "RUN"@[0] == 'R' && "COPY"@[0] == 'C' && "ENV"@[1] == 'N' && "CMD"@[0] == 'C');
    assert("EXPOSE"@.len() == 6 && "WORKDIR"@.len() == 7 && "COPY"@.len() == 4 && "FROM"@.len() == 4);
    assert("RUN"@.len() == 3 && "ENV"@.len() == 3 && "CMD"@.len() == 3 && "ENV"@[0] == 'E');
    assert forall|v: Seq<char>|
        v == "FROM"@ || v == "RUN"@ || v == "COPY"@ || v == "ENV"@ || v == "CMD"@ || v == "EXPOSE"@ || v
            == "WORKDIR"@ implies #[trigger] uppercased(v) == v && unbroken(v) by {
        assert(uppercased(v) =~= v);
    }
}

/// `FROM`, `RUN`, `CMD` and `WORKDIR` take the rest of their line as it is,
/// and need one.
pub proof fn whole_lines_are_taken(rest: Seq<char>)
    requires
        well_set(rest),
    ensures
        instruction_of("FROM"@ + seq![' '] + rest) == Ok::<InstructionView, Seq<char>>(
            InstructionView::From { image: rest },
        ),
        instruction_of("RUN"@ + seq![' '] + rest) == Ok::<InstructionView, Seq<char>>(
            InstructionView::Run { command: rest },
        ),
        instruction_of("CMD"@ + seq![' '] + rest) == Ok::<InstructionView, Seq<char>>(
            InstructionView::Cmd { command: rest },
        ),
        instruction_of("WORKDIR"@ + seq![' '] + rest) == Ok::<InstructionView, Seq<char>>(
            InstructionView::Workdir { path: rest },
        ),
{
    lemma_verbs();
    assert(uppercased("FROM"@) == "FROM"@ && uppercased("RUN"@) == "RUN"@);
    assert(uppercased("CMD"@) == "CMD"@ && uppercased("WORKDIR"@) == "WORKDIR"@);
    lemma_line("FROM"@, rest);
    lemma_line("RUN"@, rest);
    lemma_line("CMD"@, rest);
    lemma_line("WORKDIR"@, rest);
}

/// Every instruction needs an argument: a verb alone is an error, and so is a
/// word that is no verb, whatever follows it.
pub proof fn bare_and_unknown_verbs_are_errors(verb: Seq<char>, rest: Seq<char>)
    requires
        unbroken(verb),
    ensures
        instruction_of(verb) is Err,
        ({
            let v = uppercased(verb);
            v != "FROM"@ && v != "RUN"@ && v != "COPY"@ && v != "ENV"@ && v != "CMD"@ && v != "EXPOSE"@ && v
                != "WORKDIR"@ ==> instruction_of(verb + seq![' '] + rest) is Err
        }),
{
    reveal_strlit("");
    single_words_are_not_cut(verb);
    words_end_at_white_space(verb, ' ', rest);
    let none = ""@;
    assert(none =~= Seq::<char>::empty());
    assert(trimmed_start(none) =~= none);
    assert(words(none) =~= Seq::<Seq<char>>::empty());
    none.index_of_first_ensures('=');
    none.index_of_first_ensures('/');
    assert(trimmed(none) =~= none);
}

/// Both forms of `ENV` mean the same: a name and a value with a `=` or a blank
/// between them set that name to that value. With the `=`, the value may hold
/// further ones or be empty.
pub proof fn env_forms_mean_the_same(k: Seq<char>, v: Seq<char>)
    requires
        k.len() > 0,
        unbroken(k),
        !k.contains('='),
        v.len() > 0 ==> well_set(v),
    ensures
        instruction_of("ENV"@ + seq![' '] + (k + seq!['='] + v)) == Ok::<InstructionView, Seq<char>>(
            InstructionView::Env { key: k, value: v },
        ),
        v.len() > 0 && !v.contains('=') ==> instruction_of("ENV"@ + seq![' '] + (k + seq![' '] + v)) == Ok::<
            InstructionView,
            Seq<char>,
        >(InstructionView::Env { key: k, value: v }),
{
    lemma_verbs();
    assert(uppercased("ENV"@) == "ENV"@);
    let a = k + seq!['='] + v;
    assert(!is_white(k[0]) && !is_white(k[k.len() - 1]));
    assert(a[0] == k[0]);
    assert(a.last() == if v.len() > 0 {
        v.last()
    } else {
        '='
    });
    lemma_line("ENV"@, a);
    trimmed_texts_stay(k);
    trimmed_texts_stay(v);
    a.index_of_first_ensures('=');
    assert(a[k.len() as int] == '=');
    let i = a.index_of_first('=')->0;
    if i < k.len() {
        assert(a[i] == k[i]);
        assert(k.contains(k[i]));
    }
    assert(a.take(i) =~= k);
    assert(a.skip(i + 1) =~= v);
    if v.len() > 0 && !v.contains('=') {
        let b = k + seq![' '] + v;
        assert(b[0] == k[0] && b.last() == v.last());
        lemma_line("ENV"@, b);
        b.index_of_first_ensures('=');
        assert(!b.contains('=')) by {
            if b.contains('=') {
                let n = choose|n: int| 0 <= n < b.len() && b[n] == '=';
                if n < k.len() {
                    assert(k.contains(k[n]));
                } else if n > k.len() {
                    assert(b[n] == v[n - k.len() - 1]);
                    assert(v.contains(v[n - k.len() - 1]));
                }
            }
        }
        words_end_at_white_space(k, ' ', v);
    }
}

/// A variable without a value is an error.
pub proof fn env_needs_a_value(k: Seq<char>)
    requires
        k.len() > 0,
        unbroken(k),
        !k.contains('='),
    ensures
        instruction_of("ENV"@ + seq![' '] + k) is Err,
{
    lemma_verbs();
    assert(uppercased("ENV"@) == "ENV"@);
    assert(!is_white(k[0]) && !is_white(k[k.len() - 1]));
    lemma_line("ENV"@, k);
    k.index_of_first_ensures('=');
    single_words_are_not_cut(k);
}

/// `COPY` takes a source and a destination, in this order, and no other number
/// of arguments.
pub proof fn copy_takes_two_arguments(args: Seq<Seq<char>>)
    requires
        args.len() > 0,
        forall|i: int| 0 <= i < args.len() ==> (#[trigger] args[i]).len() > 0,
        forall|i: int, k: int| 0 <= i < args.len() && 0 <= k < args[i].len() ==> !is_white(#[trigger] args[i][k]),
    ensures
        ({
            let r = instruction_of("COPY"@ + seq![' '] + joined(args, seq![' ']));
            if args.len() == 2 {
                r == Ok::<InstructionView, Seq<char>>(InstructionView::Copy { src: args[0], dst: args[1] })
            } else {
                r is Err
            }
        }),
{
    lemma_verbs();
    assert(uppercased("COPY"@) == "COPY"@);
    let rest = joined(args, seq![' ']);
    joined_words_come_back(args);
    let n = args.len() - 1;
    assert(!is_white(args[0][0]));
    assert(!is_white(args[n][args[n].len() - 1]));
    if args.len() > 1 {
        crate::text::lemma_joined_first_part(args, seq![' ']);
        assert(rest[0] == args[0][0]);
        assert(rest.last() == args[n].last());
    }
    lemma_line("COPY"@, rest);
}

/// `EXPOSE` takes a port and a protocol, which is `tcp` where none is given.
pub proof fn expose_takes_a_port(n: u16, proto: Seq<char>)
    requires
        proto.len() > 0 ==> !is_white(proto.last()),
    ensures
        instruction_of("EXPOSE"@ + seq![' '] + decimal(n as nat)) == Ok::<InstructionView, Seq<char>>(
            InstructionView::Expose { port: n, proto: "tcp"@ },
        ),
        instruction_of("EXPOSE"@ + seq![' '] + (decimal(n as nat) + seq!['/'] + proto)) == Ok::<
            InstructionView,
            Seq<char>,
        >(InstructionView::Expose { port: n, proto }),
{
    lemma_verbs();
    assert(uppercased("EXPOSE"@) == "EXPOSE"@);
    let d = decimal(n as nat);
    crate::num::lemma_decimal(n as nat);
    crate::num::decimal_parses_back(n as nat, 65535);
    assert(crate::num::is_digit(d[0]) && crate::num::is_digit(d[d.len() - 1]));
    assert(!d.contains('/')) by {
        if d.contains('/') {
            let i = choose|i: int| 0 <= i < d.len() && d[i] == '/';
            assert(crate::num::is_digit(d[i]));
        }
    }
    d.index_of_first_ensures('/');
    trimmed_texts_stay(d);
    lemma_line("EXPOSE"@, d);
    let a = d + seq!['/'] + proto;
    assert(a[0] == d[0]);
    assert(a.last() == if proto.len() > 0 {
        proto.last()
    } else {
        '/'
    });
    lemma_line("EXPOSE"@, a);
    a.index_of_first_ensures('/');
    assert(a[d.len() as int] == '/');
    let i = a.index_of_first('/')->0;
    if i < d.len() {
        assert(d.contains(d[i]));
    }
    assert(a.take(i) =~= d);
    assert(a.skip(i + 1) =~= proto);
}

/// Verbs may be written in capitals or not: two verbs that differ in the case
/// of ASCII letters alone say the same.
pub proof fn capitals_do_not_matter(a: Seq<char>, b: Seq<char>, rest: Seq<char>)
    requires
        a.len() == b.len(),
        forall|i: int|
            0 <= i < a.len() ==> #[trigger] a[i] == b[i] || ('a' <= a[i] <= 'z' && b[i] as int == a[i] as int - 32) || (
            'a' <= b[i] <= 'z' && a[i] as int == b[i] as int - 32),
        unbroken(a),
        unbroken(b),
    ensures
        instruction_of(a + seq![' '] + rest) == instruction_of(b + seq![' '] + rest),
{
    words_end_at_white_space(a, ' ', rest);
    words_end_at_white_space(b, ' ', rest);
    let x = uppercased(a);
    let y = uppercased(b);
    assert forall|i: int| 0 <= i < x.len() implies x[i] == y[i] by {
        assert(a[i] == b[i] || ('a' <= a[i] <= 'z' && b[i] as int == a[i] as int - 32) || ('a' <= b[i] <= 'z'
            && a[i] as int == b[i] as int - 32));
    }
    assert(x =~= y);
}

/// A file of one line is the instruction of that line.
pub proof fn one_line_is_one_instruction(line: Seq<char>)
    requires
        well_set(line),
        !line.contains('\n'),
        line[0] != '#',
        line.last() != '\\',
    ensures
        match instruction_of(line) {
            Ok(i) => parsed(line) == Ok::<Seq<InstructionView>, (nat, Seq<char>)>(seq![i]),
            Err(m) => parsed(line) == Err::<Seq<InstructionView>, (nat, Seq<char>)>((1, m)),
        },
{
    reveal_strlit("");
    crate::text::lemma_pieces_whole(line, '\n');
    let all = lines_of(line);
    assert(all =~= seq![line]);
    trimmed_texts_stay(line);
    assert(trimmed_end(line) == line);
    assert(""@ + line =~= line);
    assert(trimmed(""@).len() == 0);
    reveal_with_fuel(parsed_from, 2);
    let rest = parsed_from(all, 1, ""@, 1);
    assert(rest == Ok::<Seq<InstructionView>, (nat, Seq<char>)>(Seq::empty()));
    match instruction_of(line) {
        Ok(i) => {
            assert(seq![i] + Seq::<InstructionView>::empty() =~= seq![i]);
        },
        Err(m) => {},
    }
}

/// An error names the line on which it stands: behind good lines of which the
/// last one ends, a bad line is reported with its own number.
pub proof fn errors_name_their_line(a: Seq<char>, bad: Seq<char>, x: Seq<InstructionView>)
    requires
        a.len() > 0 ==> a.last() == '\n',
        parsed(a) == Ok::<Seq<InstructionView>, (nat, Seq<char>)>(x),
        lines_of(a).len() > 0 ==> !continues(lines_of(a).last()),
        well_set(bad),
        !bad.contains('\n'),
        bad[0] != '#',
        bad.last() != '\\',
        instruction_of(bad) is Err,
    ensures
        parsed(a + bad) == Err::<Seq<InstructionView>, (nat, Seq<char>)>(
            (lines_of(a).len() + 1, instruction_of(bad)->Err_0),
        ),
{
    lemma_lines_behind(a, bad);
    crate::text::lemma_pieces_whole(bad, '\n');
    assert(lines_of(bad) =~= seq![bad]);
    lemma_bad_line(lines_of(a), bad, 0, ""@, 1);
}

/// Good lines in front of a bad one do not hide it.
proof fn lemma_bad_line(a: Seq<Seq<char>>, bad: Seq<char>, i: nat, pending: Seq<char>, s: nat)
    requires
        i <= a.len(),
        i == a.len() ==> pending == ""@,
        parsed_from(a, i, pending, s) is Ok,
        a.len() > 0 ==> !continues(a.last()),
        well_set(bad),
        bad[0] != '#',
        bad.last() != '\\',
        instruction_of(bad) is Err,
    ensures
        parsed_from(a + seq![bad], i, pending, s) == Err::<Seq<InstructionView>, (nat, Seq<char>)>(
            (a.len() + 1, instruction_of(bad)->Err_0),
        ),
    decreases a.len() - i,
{
    reveal_strlit("");
    let both = a + seq![bad];
    if i == a.len() {
        assert(both[i as int] == bad);
        trimmed_texts_stay(bad);
        assert(trimmed_end(bad) == bad);
        assert(""@ + bad =~= bad);
    } else {
        assert(both[i as int] == a[i as int]);
        let line = trimmed_end(a[i as int]);
        let first: nat = if pending.len() == 0 {
            i + 1
        } else {
            s
        };
        if line.len() > 0 && line.last() == '\\' {
            assert(continues(a[i as int]));
            assert(i + 1 < a.len());
            lemma_bad_line(a, bad, i + 1, pending + trimmed_end(line.drop_last()) + " "@, first);
        } else {
            assert(parsed_from(a, i + 1, ""@, first) is Ok);
            lemma_bad_line(a, bad, i + 1, ""@, first);
        }
    }
}

} // verus!
