//! Reading a Dockerfile: logical lines and the instruction on each of them.
use crate::instruction::{CopyInstruction, CopyModel, Instruction, InstructionModel};
use crate::sequence::{lemma_filter_all, lemma_filter_empty, lemma_filter_front};
use crate::sequence::lemma_filter_next;
use crate::text::{begins, chars_of, contains_char, cut, glue, glue3};
use crate::text::{is_empty, is_white_space, join, joined, lines, lines_of, lowercase, outcome};
use crate::text::{same_text, split_once, starts_with, strip_prefix, text_of, to_ascii_uppercase};
use crate::text::{eq_ignore_ascii_case, trim, trim_end, trimmed, trimmed_end, upper, uppercase};
use crate::text::{texts_are_cut_at_the_first, white_space};
use vstd::prelude::*;

verus! {

// ---------------------------------------------------------------------------
// Outside parsers
// ---------------------------------------------------------------------------
/// The words that a shell splits a line into; none where quoting is left open.
pub uninterp spec fn shell_words(line: Seq<char>) -> Option<Seq<Seq<char>>>;

/// `shlex::split`: its result is a function of the line.
#[verifier::external_body]
fn split_words(line: &str) -> (words: Option<Vec<String>>)
    ensures
        words.deep_view() == shell_words(line@),
{
    shlex::split(line)
}

/// The strings of a JSON array of strings, or what is wrong with the text.
pub uninterp spec fn json_strings(text: Seq<char>) -> Result<Seq<Seq<char>>, Seq<char>>;

/// `serde_json::from_str` for a list of strings: the list, or the message of its
/// error, is a function of the text.
#[verifier::external_body]
pub(crate) fn parse_json_strings(text: &str) -> (strings: Result<Vec<String>, String>)
    ensures
        outcome(strings) == json_strings(text@),
{
    match serde_json::from_str::<Vec<String>>(text) {
        Ok(strings) => Ok(strings),
        Err(problem) => Err(problem.to_string()),
    }
}

// ---------------------------------------------------------------------------
// Logical lines
// ---------------------------------------------------------------------------
/// The logical lines that raw lines make up. Blank lines and lines that start with
/// `#` are skipped; a line that ends in a backslash goes on with the next one.
/// `pending` is what such lines have gathered so far.
pub open spec fn logical_lines(raw: Seq<Seq<char>>, pending: Seq<char>) -> Seq<Seq<char>>
    decreases raw.len(),
{
    if raw.len() == 0 {
        if trimmed(pending).len() == 0 {
            seq![]
        } else {
            seq![trimmed(pending)]
        }
    } else {
        let line = trimmed_end(raw[0]);
        if line.len() == 0 || line[0] == '#' {
            logical_lines(raw.skip(1), pending)
        } else if line.last() == '\\' {
            logical_lines(raw.skip(1), pending + line.drop_last() + " "@)
        } else {
            seq![trimmed(pending + line)] + logical_lines(raw.skip(1), seq![])
        }
    }
}

/// The logical lines of a Dockerfile.
pub fn instruction_lines(input: &str) -> (result: Vec<String>)
    ensures
        result.deep_view() == logical_lines(lines_of(input@), seq![]),
{
    let raw = lines(input);
    let ghost all = lines_of(input@);
    let mut result: Vec<String> = Vec::new();
    let mut current = String::new();
    let mut at: usize = 0;
    proof {
        assert(all.skip(0) =~= all);
        assert(current@ =~= seq![]);
        assert(result.deep_view() + logical_lines(all, seq![]) =~= logical_lines(all, seq![]));
    }
    while at < raw.len()
        invariant
            at <= raw@.len(),
            raw.deep_view() == all,
            result.deep_view() + logical_lines(all.skip(at as int), current@) == logical_lines(
                all,
                seq![],
            ),
        decreases raw@.len() - at,
    {
        let ghost rest = all.skip(at as int);
        let ghost before = result.deep_view();
        let ghost pending = current@;
        let line = trim_end(&raw[at]);
        proof {
            assert(raw@[at as int]@ == all[at as int]);
            assert(rest[0] == all[at as int]);
            assert(rest.skip(1) =~= all.skip(at + 1));
        }
        at = at + 1;
        let chars = chars_of(&line);
        if chars.len() == 0 || chars[0] == '#' {
            assert(line@.len() == 0 || line@[0] == '#');
        } else if chars[chars.len() - 1] == '\\' {
            let head = text_of(&chars, 0, chars.len() - 1);
            assert(head@ =~= line@.drop_last());
            current.append(&head);
            current.append(" ");
        } else {
            current.append(&line);
            let whole = trim(&current);
            result.push(whole);
            current = String::new();
            proof {
                let next = all.skip(at as int);
                assert(result.deep_view() =~= before.push(whole@));
                assert(current@ =~= seq![]);
                assert(before + (seq![whole@] + logical_lines(next, seq![])) =~= before.push(
                    whole@,
                ) + logical_lines(next, seq![]));
            }
        }
    }
    let ghost before = result.deep_view();
    let last = trim(&current);
    assert(all.skip(at as int).len() == 0);
    if !is_empty(&last) {
        result.push(last);
        assert(result.deep_view() =~= before.push(last@));
        assert(before.push(last@) =~= before + seq![last@]);
    } else {
        assert(before + seq![] =~= before);
    }
    result
}

/// A blank line or a comment changes nothing, wherever it stands: even within a
/// line that goes on.
pub proof fn comments_change_nothing(
    before: Seq<Seq<char>>,
    skipped: Seq<char>,
    after: Seq<Seq<char>>,
    pending: Seq<char>,
)
    requires
        trimmed_end(skipped).len() == 0 || trimmed_end(skipped)[0] == '#',
    ensures
        logical_lines(before + seq![skipped] + after, pending) == logical_lines(
            before + after,
            pending,
        ),
    decreases before.len(),
{
    let with = before + seq![skipped] + after;
    let without = before + after;
    if before.len() == 0 {
        assert(with[0] == skipped);
        assert(with.skip(1) =~= without);
    } else {
        let rest = before.skip(1);
        assert(with.skip(1) =~= rest + seq![skipped] + after);
        assert(without.skip(1) =~= rest + after);
        assert(with[0] == before[0] && without[0] == before[0]);
        let line = trimmed_end(before[0]);
        if line.len() == 0 || line[0] == '#' {
            comments_change_nothing(rest, skipped, after, pending);
        } else if line.last() == '\\' {
            comments_change_nothing(rest, skipped, after, pending + line.drop_last() + " "@);
        } else {
            comments_change_nothing(rest, skipped, after, seq![]);
        }
    }
}

// ---------------------------------------------------------------------------
// Instructions
// ---------------------------------------------------------------------------
/// FROM, on the words of its line.
pub open spec fn from_in(rest: Seq<char>, words: Option<Seq<Seq<char>>>) -> Result<
    InstructionModel,
    Seq<char>,
> {
    match words {
        None => Err("Invalid FROM instruction '"@ + rest + "'"@),
        Some(tokens) => if tokens.len() == 0 {
            Err("FROM requires an image"@)
        } else {
            Ok(
                InstructionModel::From {
                    image: tokens[0],
                    alias: if tokens.len() >= 3 && lowercase(tokens[1]) == lowercase("AS"@) {
                        Some(tokens[2])
                    } else {
                        None
                    },
                },
            )
        },
    }
}

/// FROM, on the words of its line.
pub fn from_words(rest: &str, words: Option<Vec<String>>) -> (result: Result<Instruction, String>)
    ensures
        outcome(result) == from_in(rest@, words.deep_view()),
{
    match words {
        None => Err(glue3("Invalid FROM instruction '", rest, "'")),
        Some(tokens) => {
            if tokens.len() == 0 {
                return Err("FROM requires an image".to_string());
            }
            let ghost model = tokens.deep_view();
            assert(model[0] == tokens@[0]@);
            let alias = if tokens.len() >= 3 && eq_ignore_ascii_case(&tokens[1], "AS") {
                assert(model[1] == tokens@[1]@ && model[2] == tokens@[2]@);
                Some(tokens[2].clone())
            } else {
                assert(tokens@.len() >= 3 ==> model[1] == tokens@[1]@);
                None
            };
            Ok(Instruction::From { image: tokens[0].clone(), alias })
        },
    }
}

/// FROM.
pub fn parse_from_instruction(rest: &str) -> (result: Result<Instruction, String>)
    ensures
        outcome(result) == from_in(rest@, shell_words(rest@)),
{
    from_words(rest, split_words(rest))
}

/// ARG: a name, and after an equals sign its default.
pub open spec fn arg_in(rest: Seq<char>) -> Result<InstructionModel, Seq<char>> {
    let (name, default) = match cut(rest, '=') {
        Some((name, default)) => (trimmed(name), Some(trimmed(default))),
        None => (trimmed(rest), None),
    };
    if name.len() == 0 {
        Err("ARG requires a name"@)
    } else {
        Ok(InstructionModel::Arg { name, default })
    }
}

/// ARG: a name, and after an equals sign its default.
pub fn parse_arg_instruction(rest: &str) -> (result: Result<Instruction, String>)
    ensures
        outcome(result) == arg_in(rest@),
{
    let (name, default) = match split_once(rest, '=') {
        Some((name, default)) => (trim(&name), Some(trim(&default))),
        None => (trim(rest), None),
    };
    if is_empty(&name) {
        return Err("ARG requires a name".to_string());
    }
    Ok(Instruction::Arg { name, default })
}

/// `key=value` words.
pub open spec fn pairs_in(rest: Seq<char>, words: Option<Seq<Seq<char>>>) -> Result<
    Seq<(Seq<char>, Seq<char>)>,
    Seq<char>,
> {
    match words {
        None => Err("Invalid key-value instruction '"@ + rest + "'"@),
        Some(tokens) => {
            let bare = tokens.filter(|token: Seq<char>| cut(token, '=') is None);
            if bare.len() > 0 {
                Err("Expected key=value token, got '"@ + bare[0] + "'"@)
            } else {
                Ok(tokens.map_values(|token: Seq<char>| cut(token, '=')->0))
            }
        },
    }
}

/// `key=value` words.
pub fn pair_words(rest: &str, words: Option<Vec<String>>) -> (result: Result<
    Vec<(String, String)>,
    String,
>)
    ensures
        outcome(result) == pairs_in(rest@, words.deep_view()),
{
    match words {
        None => Err(glue3("Invalid key-value instruction '", rest, "'")),
        Some(tokens) => {
            let ghost model = tokens.deep_view();
            let ghost is_bare = |token: Seq<char>| cut(token, '=') is None;
            let ghost parts = model.map_values(|token: Seq<char>| cut(token, '=')->0);
            let mut pairs: Vec<(String, String)> = Vec::new();
            let mut at: usize = 0;
            proof {
                lemma_filter_empty(model.take(0), is_bare);
                assert(pairs.deep_view() =~= parts.take(0));
            }
            while at < tokens.len()
                invariant
                    at <= tokens@.len(),
                    words.deep_view() == Some(model),
                    tokens.deep_view() == model,
                    is_bare == (|token: Seq<char>| cut(token, '=') is None),
                    parts == model.map_values(|token: Seq<char>| cut(token, '=')->0),
                    model.take(at as int).filter(is_bare) == Seq::<Seq<char>>::empty(),
                    pairs.deep_view() == parts.take(at as int),
                decreases tokens@.len() - at,
            {
                let ghost before = pairs.deep_view();
                proof {
                    assert(model[at as int] == tokens@[at as int]@);
                    lemma_filter_next(model, at as int, is_bare);
                    lemma_filter_front(model, at + 1, is_bare);
                }
                match split_once(&tokens[at], '=') {
                    Some((key, value)) => {
                        pairs.push((key, value));
                        proof {
                            assert(pairs.deep_view() =~= before.push((key@, value@)));
                            assert(parts.take(at + 1) =~= parts.take(at as int).push(
                                parts[at as int],
                            ));
                        }
                    },
                    None => {
                        return Err(glue3("Expected key=value token, got '", &tokens[at], "'"));
                    },
                }
                at = at + 1;
            }
            assert(model.take(at as int) =~= model);
            assert(parts.take(at as int) =~= parts);
            Ok(pairs)
        },
    }
}

/// `key=value` words.
pub fn parse_key_value_pairs(rest: &str) -> (result: Result<Vec<(String, String)>, String>)
    ensures
        outcome(result) == pairs_in(rest@, shell_words(rest@)),
{
    pair_words(rest, split_words(rest))
}

/// ENV: `key=value` words, or a key and a value of one or more words.
pub open spec fn env_in(rest: Seq<char>, words: Option<Seq<Seq<char>>>) -> Result<
    InstructionModel,
    Seq<char>,
> {
    if rest.contains('=') {
        match pairs_in(rest, words) {
            Ok(pairs) => Ok(InstructionModel::Env(pairs)),
            Err(message) => Err(message),
        }
    } else {
        match words {
            None => Err("Invalid ENV instruction '"@ + rest + "'"@),
            Some(tokens) => if tokens.len() < 2 {
                Err("ENV requires at least a key and value"@)
            } else {
                Ok(InstructionModel::Env(seq![(tokens[0], joined(tokens.skip(1), " "@))]))
            },
        }
    }
}

/// ENV, on the words of its line.
pub fn env_words(rest: &str, words: Option<Vec<String>>) -> (result: Result<Instruction, String>)
    ensures
        outcome(result) == env_in(rest@, words.deep_view()),
{
    if contains_char(rest, '=') {
        return match pair_words(rest, words) {
            Ok(pairs) => Ok(Instruction::Env(pairs)),
            Err(message) => Err(message),
        };
    }
    match words {
        None => Err(glue3("Invalid ENV instruction '", rest, "'")),
        Some(tokens) => {
            if tokens.len() < 2 {
                return Err("ENV requires at least a key and value".to_string());
            }
            let ghost model = tokens.deep_view();
            let value = join(&tokens, 1, tokens.len(), " ");
            let mut pairs: Vec<(String, String)> = Vec::new();
            pairs.push((tokens[0].clone(), value));
            proof {
                assert(model[0] == tokens@[0]@);
                assert(model.subrange(1, model.len() as int) =~= model.skip(1));
                assert(pairs.deep_view() =~= seq![(model[0], joined(model.skip(1), " "@))]);
            }
            Ok(Instruction::Env(pairs))
        },
    }
}

/// ENV: `key=value` words, or a key and a value of one or more words.
pub fn parse_env_instruction(rest: &str) -> (result: Result<Instruction, String>)
    ensures
        outcome(result) == env_in(rest@, shell_words(rest@)),
{
    env_words(rest, split_words(rest))
}

/// The word names the stage to copy from.
pub open spec fn is_from_option(token: Seq<char>) -> bool {
    begins(token, "--from="@)
}

/// The complaint about a COPY or ADD with too few operands.
pub open spec fn too_few_operands() -> Seq<char> {
    "COPY/ADD requires at least one source and one destination"@
}

/// COPY and ADD: options, one or more sources, and a destination.
pub open spec fn copy_in(rest: Seq<char>, words: Option<Seq<Seq<char>>>) -> Result<
    CopyModel,
    Seq<char>,
> {
    match words {
        None => Err("Invalid COPY/ADD instruction '"@ + rest + "'"@),
        Some(tokens) => {
            let froms = tokens.filter(|token: Seq<char>| is_from_option(token));
            let operands = tokens.filter(|token: Seq<char>| !is_from_option(token));
            let options = operands.filter(|token: Seq<char>| begins(token, "--"@));
            if tokens.len() < 2 {
                Err(too_few_operands())
            } else if options.len() > 0 {
                Err("Unsupported COPY/ADD option '"@ + options[0] + "'"@)
            } else if operands.len() < 2 {
                Err(too_few_operands())
            } else {
                Ok(
                    CopyModel {
                        from: if froms.len() > 0 {
                            Some(froms.last().skip("--from="@.len() as int))
                        } else {
                            None
                        },
                        sources: operands.drop_last(),
                        destination: operands.last(),
                    },
                )
            }
        },
    }
}

/// COPY and ADD, on the words of their line.
pub fn copy_words(rest: &str, words: Option<Vec<String>>) -> (result: Result<
    CopyInstruction,
    String,
>)
    ensures
        outcome(result) == copy_in(rest@, words.deep_view()),
{
    match words {
        None => Err(glue3("Invalid COPY/ADD instruction '", rest, "'")),
        Some(tokens) => {
            if tokens.len() < 2 {
                return Err(
                    "COPY/ADD requires at least one source and one destination".to_string(),
                );
            }
            let ghost model = tokens.deep_view();
            let ghost is_from = |token: Seq<char>| is_from_option(token);
            let ghost is_operand = |token: Seq<char>| !is_from_option(token);
            let ghost is_option = |token: Seq<char>| begins(token, "--"@);
            let ghost operands = model.filter(is_operand);
            let mut from: Option<String> = None;
            let mut filtered: Vec<String> = Vec::new();
            let mut at: usize = 0;
            proof {
                lemma_filter_empty(model.take(0), is_from);
                lemma_filter_empty(model.take(0), is_operand);
                lemma_filter_empty(model.take(0).filter(is_operand), is_option);
                assert(filtered.deep_view() =~= Seq::<Seq<char>>::empty());
            }
            while at < tokens.len()
                invariant
                    at <= tokens@.len(),
                    2 <= tokens@.len(),
                    words.deep_view() == Some(model),
                    tokens.deep_view() == model,
                    is_from == (|token: Seq<char>| is_from_option(token)),
                    is_operand == (|token: Seq<char>| !is_from_option(token)),
                    is_option == (|token: Seq<char>| begins(token, "--"@)),
                    operands == model.filter(is_operand),
                    filtered.deep_view() == model.take(at as int).filter(is_operand),
                    filtered.deep_view().filter(is_option) == Seq::<Seq<char>>::empty(),
                    from.deep_view() == if model.take(at as int).filter(is_from).len() > 0 {
                        Some(
                            model.take(at as int).filter(is_from).last().skip(
                                "--from="@.len() as int,
                            ),
                        )
                    } else {
                        None
                    },
                decreases tokens@.len() - at,
            {
                let ghost before = filtered.deep_view();
                proof {
                    assert(model[at as int] == tokens@[at as int]@);
                    lemma_filter_next(model, at as int, is_from);
                    lemma_filter_next(model, at as int, is_operand);
                }
                let token = &tokens[at];
                match strip_prefix(token, "--from=") {
                    Some(value) => {
                        from = Some(value);
                    },
                    None => {
                        proof {
                            let next = before.push(token@);
                            lemma_filter_next(next, before.len() as int, is_option);
                            assert(next.take(before.len() as int) =~= before);
                            assert(next.take(before.len() as int + 1) =~= next);
                            lemma_filter_front(model, at + 1, is_operand);
                            let later = model.skip(at + 1).filter(is_operand);
                            assert((next + later).take(next.len() as int) =~= next);
                            lemma_filter_front(next + later, next.len() as int, is_option);
                        }
                        if starts_with(token, "--") {
                            return Err(glue3("Unsupported COPY/ADD option '", token, "'"));
                        }
                        filtered.push(token.clone());
                        assert(filtered.deep_view() =~= before.push(token@));
                    },
                }
                at = at + 1;
            }
            assert(model.take(at as int) =~= model);
            if filtered.len() < 2 {
                return Err(
                    "COPY/ADD requires at least one source and one destination".to_string(),
                );
            }
            let ghost all = filtered.deep_view();
            let destination = filtered[filtered.len() - 1].clone();
            let mut sources: Vec<String> = Vec::new();
            let mut next: usize = 0;
            while next < filtered.len() - 1
                invariant
                    next <= filtered@.len() - 1,
                    filtered.deep_view() == all,
                    sources.deep_view() == all.drop_last().take(next as int),
                decreases filtered@.len() - next,
            {
                let ghost before = sources.deep_view();
                sources.push(filtered[next].clone());
                proof {
                    assert(sources.deep_view() =~= before.push(all[next as int]));
                    assert(all.drop_last().take(next + 1) =~= all.drop_last().take(
                        next as int,
                    ).push(all[next as int]));
                }
                next = next + 1;
            }
            assert(all.drop_last().take(next as int) =~= all.drop_last());
            Ok(CopyInstruction { from, sources, destination })
        },
    }
}

/// COPY and ADD: options, one or more sources, and a destination.
pub fn parse_copy_instruction(rest: &str) -> (result: Result<CopyInstruction, String>)
    ensures
        outcome(result) == copy_in(rest@, shell_words(rest@)),
{
    copy_words(rest, split_words(rest))
}

/// A JSON array of strings, given what the JSON parser made of the text.
pub open spec fn array_in(rest: Seq<char>, array: Result<Seq<Seq<char>>, Seq<char>>) -> Result<
    Seq<Seq<char>>,
    Seq<char>,
> {
    match array {
        Ok(strings) => Ok(strings),
        Err(problem) => Err("Invalid JSON array '"@ + rest + "': "@ + problem),
    }
}

/// A JSON array of strings, given what the JSON parser made of the text.
pub fn array_strings(rest: &str, array: Result<Vec<String>, String>) -> (result: Result<
    Vec<String>,
    String,
>)
    ensures
        outcome(result) == array_in(rest@, outcome(array)),
{
    match array {
        Ok(strings) => Ok(strings),
        Err(problem) => Err(glue(&glue3("Invalid JSON array '", rest, "': "), &problem)),
    }
}

/// A JSON array of strings.
pub fn parse_json_array(rest: &str) -> (result: Result<Vec<String>, String>)
    ensures
        outcome(result) == array_in(rest@, json_strings(rest@)),
{
    array_strings(rest, parse_json_strings(rest))
}

/// The words of a line, or the whole line where it cannot be split.
pub open spec fn list_in(rest: Seq<char>, words: Option<Seq<Seq<char>>>) -> Seq<Seq<char>> {
    match words {
        Some(tokens) => tokens,
        None => seq![rest],
    }
}

/// The words of a line, or the whole line where it cannot be split.
pub fn list_words(rest: &str, words: Option<Vec<String>>) -> (result: Vec<String>)
    ensures
        result.deep_view() == list_in(rest@, words.deep_view()),
{
    match words {
        Some(tokens) => tokens,
        None => {
            let mut whole: Vec<String> = Vec::new();
            whole.push(rest.to_string());
            assert(whole.deep_view() =~= seq![rest@]);
            whole
        },
    }
}

/// The instruction with keyword `key` and operands `rest`, given what the shell and
/// the JSON parser make of the operands.
pub open spec fn instruction_in(
    key: Seq<char>,
    rest: Seq<char>,
    words: Option<Seq<Seq<char>>>,
    array: Result<Seq<Seq<char>>, Seq<char>>,
) -> Result<InstructionModel, Seq<char>> {
    if key == "FROM"@ {
        from_in(rest, words)
    } else if key == "ARG"@ {
        arg_in(rest)
    } else if key == "ENV"@ {
        env_in(rest, words)
    } else if key == "WORKDIR"@ {
        Ok(InstructionModel::Workdir(rest))
    } else if key == "RUN"@ {
        Ok(InstructionModel::Run { command: rest, exec_form: begins(rest, "["@) })
    } else if key == "COPY"@ {
        match copy_in(rest, words) {
            Ok(copy) => Ok(InstructionModel::Copy(copy)),
            Err(message) => Err(message),
        }
    } else if key == "ADD"@ {
        match copy_in(rest, words) {
            Ok(copy) => Ok(InstructionModel::Add(copy)),
            Err(message) => Err(message),
        }
    } else if key == "CMD"@ {
        Ok(InstructionModel::Cmd(rest))
    } else if key == "ENTRYPOINT"@ {
        Ok(InstructionModel::Entrypoint(rest))
    } else if key == "USER"@ {
        Ok(InstructionModel::User(rest))
    } else if key == "LABEL"@ {
        match pairs_in(rest, words) {
            Ok(pairs) => Ok(InstructionModel::Label(pairs)),
            Err(message) => Err(message),
        }
    } else if key == "EXPOSE"@ {
        Ok(InstructionModel::Expose(list_in(rest, words)))
    } else if key == "VOLUME"@ {
        if begins(rest, "["@) {
            match array_in(rest, array) {
                Ok(strings) => Ok(InstructionModel::Volume(strings)),
                Err(message) => Err(message),
            }
        } else {
            Ok(InstructionModel::Volume(list_in(rest, words)))
        }
    } else if key == "SHELL"@ {
        match array_in(rest, array) {
            Ok(strings) => Ok(InstructionModel::Shell(strings)),
            Err(message) => Err(message),
        }
    } else {
        Err("Unsupported Dockerfile instruction '"@ + key + "'"@)
    }
}

/// The instruction with keyword `key` and operands `rest`.
pub fn parse_instruction(key: &str, rest: &str) -> (result: Result<Instruction, String>)
    ensures
        outcome(result) == instruction_in(key@, rest@, shell_words(rest@), json_strings(rest@)),
{
    if same_text(key, "FROM") {
        parse_from_instruction(rest)
    } else if same_text(key, "ARG") {
        parse_arg_instruction(rest)
    } else if same_text(key, "ENV") {
        parse_env_instruction(rest)
    } else if same_text(key, "WORKDIR") {
        Ok(Instruction::Workdir(rest.to_string()))
    } else if same_text(key, "RUN") {
        Ok(Instruction::Run { command: rest.to_string(), exec_form: starts_with(rest, "[") })
    } else if same_text(key, "COPY") {
        match parse_copy_instruction(rest) {
            Ok(copy) => Ok(Instruction::Copy(copy)),
            Err(message) => Err(message),
        }
    } else if same_text(key, "ADD") {
        match parse_copy_instruction(rest) {
            Ok(copy) => Ok(Instruction::Add(copy)),
            Err(message) => Err(message),
        }
    } else if same_text(key, "CMD") {
        Ok(Instruction::Cmd(rest.to_string()))
    } else if same_text(key, "ENTRYPOINT") {
        Ok(Instruction::Entrypoint(rest.to_string()))
    } else if same_text(key, "USER") {
        Ok(Instruction::User(rest.to_string()))
    } else if same_text(key, "LABEL") {
        match parse_key_value_pairs(rest) {
            Ok(pairs) => Ok(Instruction::Label(pairs)),
            Err(message) => Err(message),
        }
    } else if same_text(key, "EXPOSE") {
        Ok(Instruction::Expose(list_words(rest, split_words(rest))))
    } else if same_text(key, "VOLUME") {
        if starts_with(rest, "[") {
            match parse_json_array(rest) {
                Ok(strings) => Ok(Instruction::Volume(strings)),
                Err(message) => Err(message),
            }
        } else {
            Ok(Instruction::Volume(list_words(rest, split_words(rest))))
        }
    } else if same_text(key, "SHELL") {
        match parse_json_array(rest) {
            Ok(strings) => Ok(Instruction::Shell(strings)),
            Err(message) => Err(message),
        }
    } else {
        Err(glue3("Unsupported Dockerfile instruction '", key, "'"))
    }
}

/// The place of the first white space at or after `from`, or the length.
pub open spec fn white_from(s: Seq<char>, from: int) -> int
    decreases s.len() - from,
{
    if from >= s.len() {
        s.len() as int
    } else if white_space(s[from]) {
        from
    } else {
        white_from(s, from + 1)
    }
}

/// A logical line's keyword in upper case and its operands.
pub open spec fn keyword_and_rest(line: Seq<char>) -> Option<(Seq<char>, Seq<char>)> {
    let at = white_from(line, 0);
    if at < line.len() {
        Some((uppercase(line.take(at)), trimmed(line.skip(at + 1))))
    } else {
        None
    }
}

/// A logical line's keyword in upper case and its operands.
pub fn split_keyword(line: &str) -> (result: Option<(String, String)>)
    ensures
        result.deep_view() == keyword_and_rest(line@),
{
    let chars = chars_of(line);
    let mut at: usize = 0;
    while at < chars.len() && !is_white_space(chars[at])
        invariant
            chars@ == line@,
            at <= chars@.len(),
            white_from(line@, 0) == white_from(line@, at as int),
        decreases chars@.len() - at,
    {
        at = at + 1;
    }
    if at == chars.len() {
        return None;
    }
    let keyword = text_of(&chars, 0, at);
    let rest = text_of(&chars, at + 1, chars.len());
    assert(keyword@ =~= line@.take(at as int));
    assert(rest@ =~= line@.skip(at + 1));
    Some((to_ascii_uppercase(&keyword), trim(&rest)))
}

/// The case of a keyword makes no difference.
pub proof fn keyword_case_is_ignored(line: Seq<char>, other: Seq<char>)
    requires
        white_from(line, 0) < line.len(),
        line.len() == other.len(),
        line.skip(white_from(line, 0)) == other.skip(white_from(line, 0)),
        uppercase(line.take(white_from(line, 0))) == uppercase(other.take(white_from(line, 0))),
    ensures
        keyword_and_rest(other) == keyword_and_rest(line),
{
    let at = white_from(line, 0);
    lemma_white_from(line, 0);
    assert(line.skip(at)[0] == other.skip(at)[0]);
    assert forall|i: int| 0 <= i < at implies !white_space(#[trigger] other[i]) by {
        let one = line.take(at);
        let two = other.take(at);
        assert(uppercase(one)[i] == uppercase(two)[i]);
        lemma_upper_keeps_white(one[i], two[i]);
    }
    lemma_white_from_unique(other, 0, at);
    assert(line.skip(at).skip(1) =~= line.skip(at + 1));
    assert(other.skip(at).skip(1) =~= other.skip(at + 1));
}

proof fn lemma_white_from(s: Seq<char>, from: int)
    requires
        0 <= from <= s.len(),
    ensures
        from <= white_from(s, from) <= s.len(),
        white_from(s, from) < s.len() ==> white_space(s[white_from(s, from)]),
        forall|i: int| from <= i < white_from(s, from) ==> !white_space(#[trigger] s[i]),
    decreases s.len() - from,
{
    if from < s.len() && !white_space(s[from]) {
        lemma_white_from(s, from + 1);
    }
}

proof fn lemma_white_from_unique(s: Seq<char>, from: int, at: int)
    requires
        0 <= from <= at < s.len(),
        white_space(s[at]),
        forall|i: int| from <= i < at ==> !white_space(#[trigger] s[i]),
    ensures
        white_from(s, from) == at,
    decreases at - from,
{
    if from < at {
        lemma_white_from_unique(s, from + 1, at);
    }
}

proof fn lemma_upper_keeps_white(c: char, d: char)
    requires
        upper(c) == upper(d),
    ensures
        white_space(c) == white_space(d),
{
}

/// The instruction on a logical line.
pub open spec fn line_instruction(line: Seq<char>) -> Result<InstructionModel, Seq<char>> {
    match keyword_and_rest(line) {
        None => Err("Invalid Dockerfile instruction '"@ + line + "'"@),
        Some((key, rest)) => instruction_in(key, rest, shell_words(rest), json_strings(rest)),
    }
}

/// The instructions on logical lines: all of them, or the first complaint.
pub open spec fn line_instructions(all: Seq<Seq<char>>) -> Result<
    Seq<InstructionModel>,
    Seq<char>,
> {
    let bad = all.filter(|line: Seq<char>| line_instruction(line) is Err);
    if bad.len() > 0 {
        Err(line_instruction(bad[0])->Err_0)
    } else {
        Ok(all.map_values(|line: Seq<char>| line_instruction(line)->Ok_0))
    }
}

/// The instructions of a Dockerfile.
pub fn parse_dockerfile(input: &str) -> (result: Result<Vec<Instruction>, String>)
    ensures
        outcome(result) == line_instructions(logical_lines(lines_of(input@), seq![])),
{
    let all = instruction_lines(input);
    let ghost model = all.deep_view();
    let ghost is_bad = |line: Seq<char>| line_instruction(line) is Err;
    let ghost parsed = model.map_values(|line: Seq<char>| line_instruction(line)->Ok_0);
    let mut instructions: Vec<Instruction> = Vec::new();
    let mut at: usize = 0;
    proof {
        lemma_filter_empty(model.take(0), is_bad);
        assert(instructions.deep_view() =~= parsed.take(0));
    }
    while at < all.len()
        invariant
            at <= all@.len(),
            all.deep_view() == model,
            model == logical_lines(lines_of(input@), seq![]),
            is_bad == (|line: Seq<char>| line_instruction(line) is Err),
            parsed == model.map_values(|line: Seq<char>| line_instruction(line)->Ok_0),
            model.take(at as int).filter(is_bad) == Seq::<Seq<char>>::empty(),
            instructions.deep_view() == parsed.take(at as int),
        decreases all@.len() - at,
    {
        let line = &all[at];
        let ghost before = instructions.deep_view();
        proof {
            assert(model[at as int] == line@);
            lemma_filter_next(model, at as int, is_bad);
            lemma_filter_front(model, at + 1, is_bad);
        }
        let instruction = match split_keyword(line) {
            None => {
                return Err(glue3("Invalid Dockerfile instruction '", line, "'"));
            },
            Some((key, rest)) => match parse_instruction(&key, &rest) {
                Err(message) => {
                    return Err(message);
                },
                Ok(instruction) => instruction,
            },
        };
        instructions.push(instruction);
        proof {
            assert(instructions.deep_view() =~= before.push(instruction.deep_view()));
            assert(parsed.take(at + 1) =~= parsed.take(at as int).push(parsed[at as int]));
        }
        at = at + 1;
    }
    assert(model.take(at as int) =~= model);
    assert(parsed.take(at as int) =~= parsed);
    Ok(instructions)
}

// ---------------------------------------------------------------------------
// Laws of instructions
// ---------------------------------------------------------------------------
/// A line that says all is a line by itself: it is read without the white space around it,
/// and the lines after it are read as if it were not there.
pub proof fn plain_lines_stand_alone(line: Seq<char>, rest: Seq<Seq<char>>)
    requires
        trimmed_end(line).len() > 0,
        trimmed_end(line)[0] != '#',
        trimmed_end(line).last() != '\\',
    ensures
        logical_lines(seq![line] + rest, seq![]) == seq![trimmed(trimmed_end(line))]
            + logical_lines(rest, seq![]),
{
    let all = seq![line] + rest;
    assert(all.skip(1) =~= rest);
    let none: Seq<char> = seq![];
    assert(none + trimmed_end(line) =~= trimmed_end(line));
}

/// A line that ends in a backslash goes on with the next one: the two are one line, with a
/// space in place of the backslash.
pub proof fn continued_lines_are_one(front: Seq<char>, back: Seq<char>, rest: Seq<Seq<char>>)
    requires
        front.len() > 0,
        front[0] != '#',
        back.len() > 0,
        back[0] != '#',
        back.last() != '\\',
        !white_space(back.last()),
    ensures
        logical_lines(seq![front + seq!['\\'], back] + rest, seq![]) == seq![
            trimmed(front + seq![' '] + back),
        ] + logical_lines(rest, seq![]),
{
    reveal_strlit(" ");
    let first = front + seq!['\\'];
    let all = seq![first, back] + rest;
    let none: Seq<char> = seq![];
    assert(first.last() == '\\');
    assert(!white_space('\\'));
    assert(trimmed_end(first) == first);
    assert(trimmed_end(back) == back);
    assert(all.skip(1) =~= seq![back] + rest);
    assert(all.skip(1).skip(1) =~= rest);
    assert(first.drop_last() =~= front);
    let pending = none + first.drop_last() + " "@;
    let remaining = all.skip(1);
    assert(all[0] == first && remaining[0] == back);
    assert(logical_lines(all, none) == logical_lines(remaining, pending));
    assert(logical_lines(remaining, pending) == seq![trimmed(pending + back)] + logical_lines(
        remaining.skip(1),
        seq![],
    ));
    assert(pending + back =~= front + seq![' '] + back);
}

/// A line is its keyword and, after the first white space, its operands.
pub proof fn lines_are_keyword_and_operands(key: Seq<char>, space: char, rest: Seq<char>)
    requires
        white_space(space),
        forall|i: int| 0 <= i < key.len() ==> !white_space(#[trigger] key[i]),
    ensures
        keyword_and_rest(key + seq![space] + rest) == Some((uppercase(key), trimmed(rest))),
        keyword_and_rest(key) is None,
{
    let line = key + seq![space] + rest;
    lemma_white_at(line, 0, key.len() as int);
    lemma_white_at(key, 0, key.len() as int);
    assert(line.take(key.len() as int) =~= key);
    assert(line.skip(key.len() as int + 1) =~= rest);
}

proof fn lemma_white_at(s: Seq<char>, from: int, at: int)
    requires
        0 <= from <= at <= s.len(),
        at < s.len() ==> white_space(s[at]),
        forall|i: int| from <= i < at ==> !white_space(#[trigger] s[i]),
    ensures
        white_from(s, from) == at,
    decreases at - from,
{
    if from < at {
        assert(!white_space(s[from]));
        lemma_white_at(s, from + 1, at);
    }
}

/// The instructions are those of the lines, one each and in their order; a Dockerfile is
/// refused exactly where one of its lines is.
pub proof fn instructions_are_those_of_the_lines(all: Seq<Seq<char>>)
    ensures
        line_instructions(all) matches Ok(found) ==> found.len() == all.len() && forall|i: int|
            0 <= i < all.len() ==> line_instruction(#[trigger] all[i]) == Ok::<
                InstructionModel,
                Seq<char>,
            >(found[i]),
        line_instructions(all) is Err <==> exists|i: int|
            0 <= i < all.len() && line_instruction(#[trigger] all[i]) is Err,
        line_instructions(all) matches Err(message) ==> exists|i: int|
            0 <= i < all.len() && line_instruction(#[trigger] all[i]) == Err::<
                InstructionModel,
                Seq<char>,
            >(message),
{
    let wrong = |line: Seq<char>| line_instruction(line) is Err;
    let bad = all.filter(wrong);
    if bad.len() > 0 {
        all.lemma_filter_pred(wrong, 0);
        assert(bad.contains(bad[0]));
        all.lemma_filter_contains_rev(wrong, bad[0]);
        let i = all.index_of(bad[0]);
        assert(line_instruction(all[i]) is Err);
    } else {
        assert forall|i: int| 0 <= i < all.len() implies line_instruction(#[trigger] all[i])
            is Ok by {
            if line_instruction(all[i]) is Err {
                all.lemma_filter_contains(wrong, i);
            }
        }
    }
}

/// WORKDIR, RUN, CMD, ENTRYPOINT and USER take the rest of their line as it is; a RUN is in
/// exec form where that starts with a bracket.
pub proof fn operands_are_taken_as_they_are(
    rest: Seq<char>,
    words: Option<Seq<Seq<char>>>,
    array: Result<Seq<Seq<char>>, Seq<char>>,
)
    ensures
        instruction_in("WORKDIR"@, rest, words, array) == Ok::<InstructionModel, Seq<char>>(
            InstructionModel::Workdir(rest),
        ),
        instruction_in("RUN"@, rest, words, array) matches Ok(InstructionModel::Run {
            command,
            exec_form,
        }) && command == rest && exec_form == (rest.len() > 0 && rest[0] == '['),
        instruction_in("CMD"@, rest, words, array) == Ok::<InstructionModel, Seq<char>>(
            InstructionModel::Cmd(rest),
        ),
        instruction_in("ENTRYPOINT"@, rest, words, array) == Ok::<InstructionModel, Seq<char>>(
            InstructionModel::Entrypoint(rest),
        ),
        instruction_in("USER"@, rest, words, array) == Ok::<InstructionModel, Seq<char>>(
            InstructionModel::User(rest),
        ),
{
    lemma_keywords_differ();
    lemma_bracket(rest);
}

/// EXPOSE and VOLUME take the words of their line, or the line where it has none; VOLUME
/// takes an array where it starts with a bracket, and SHELL always does.
pub proof fn lists_are_taken(
    rest: Seq<char>,
    words: Option<Seq<Seq<char>>>,
    array: Result<Seq<Seq<char>>, Seq<char>>,
)
    ensures
        ({
            let listed = match words {
                Some(tokens) => tokens,
                None => seq![rest],
            };
            &&& instruction_in("EXPOSE"@, rest, words, array) == Ok::<InstructionModel, Seq<char>>(
                InstructionModel::Expose(listed),
            )
            &&& !(rest.len() > 0 && rest[0] == '[') ==> instruction_in(
                "VOLUME"@,
                rest,
                words,
                array,
            ) == Ok::<InstructionModel, Seq<char>>(InstructionModel::Volume(listed))
            &&& rest.len() > 0 && rest[0] == '[' ==> match array {
                Ok(strings) => instruction_in("VOLUME"@, rest, words, array) == Ok::<
                    InstructionModel,
                    Seq<char>,
                >(InstructionModel::Volume(strings)),
                Err(_) => instruction_in("VOLUME"@, rest, words, array) is Err,
            }
            &&& match array {
                Ok(strings) => instruction_in("SHELL"@, rest, words, array) == Ok::<
                    InstructionModel,
                    Seq<char>,
                >(InstructionModel::Shell(strings)),
                Err(_) => instruction_in("SHELL"@, rest, words, array) is Err,
            }
        }),
{
    lemma_keywords_differ();
    lemma_bracket(rest);
}

/// FROM takes its first word for the image, and its third for the name of the stage where
/// the second is the word `as`, in whatever case.
pub proof fn images_and_names_are_taken(
    rest: Seq<char>,
    tokens: Seq<Seq<char>>,
    array: Result<Seq<Seq<char>>, Seq<char>>,
)
    ensures
        ({
            let read = instruction_in("FROM"@, rest, Some(tokens), array);
            &&& tokens.len() == 0 ==> read is Err
            &&& tokens.len() > 0 ==> (read matches Ok(InstructionModel::From { image, alias })
                && image == tokens[0] && (tokens.len() < 3 ==> alias is None) && (tokens.len() >= 3
                && lowercase(tokens[1]) == lowercase("AS"@) ==> alias == Some(tokens[2])) && (
            tokens.len() >= 3 && lowercase(tokens[1]) != lowercase("AS"@) ==> alias is None))
        }),
        instruction_in("FROM"@, rest, None, array) is Err,
{
    lemma_keywords_differ();
}

/// ARG takes a name, and as its default what follows the first equals sign, without the
/// white space around either.
pub proof fn argument_names_and_defaults_are_taken(
    name: Seq<char>,
    default: Seq<char>,
    words: Option<Seq<Seq<char>>>,
    array: Result<Seq<Seq<char>>, Seq<char>>,
)
    requires
        !name.contains('='),
    ensures
        trimmed(name).len() > 0 ==> instruction_in(
            "ARG"@,
            name + seq!['='] + default,
            words,
            array,
        ) == Ok::<InstructionModel, Seq<char>>(
            InstructionModel::Arg { name: trimmed(name), default: Some(trimmed(default)) },
        ),
        trimmed(name).len() > 0 ==> instruction_in("ARG"@, name, words, array) == Ok::<
            InstructionModel,
            Seq<char>,
        >(InstructionModel::Arg { name: trimmed(name), default: None }),
        trimmed(name).len() == 0 ==> instruction_in("ARG"@, name, words, array) is Err
            && instruction_in("ARG"@, name + seq!['='] + default, words, array) is Err,
{
    lemma_keywords_differ();
    texts_are_cut_at_the_first(name, '=', default);
}

/// The words are assignments: each has a key, an equals sign and a value.
pub open spec fn assign(tokens: Seq<Seq<char>>, pairs: Seq<(Seq<char>, Seq<char>)>) -> bool {
    &&& tokens.len() == pairs.len()
    &&& forall|i: int|
        0 <= i < tokens.len() ==> #[trigger] tokens[i] == pairs[i].0 + seq!['='] + pairs[i].1
            && !pairs[i].0.contains('=')
}

/// LABEL, and ENV where there is an equals sign, take one assignment from each word: its
/// key before the first equals sign, and its value after it. A word without one is refused.
pub proof fn assignments_are_taken(
    rest: Seq<char>,
    tokens: Seq<Seq<char>>,
    pairs: Seq<(Seq<char>, Seq<char>)>,
    array: Result<Seq<Seq<char>>, Seq<char>>,
)
    requires
        assign(tokens, pairs),
    ensures
        instruction_in("LABEL"@, rest, Some(tokens), array) == Ok::<InstructionModel, Seq<char>>(
            InstructionModel::Label(pairs),
        ),
        rest.contains('=') ==> instruction_in("ENV"@, rest, Some(tokens), array) == Ok::<
            InstructionModel,
            Seq<char>,
        >(InstructionModel::Env(pairs)),
{
    lemma_keywords_differ();
    let lacking = |token: Seq<char>| cut(token, '=') is None;
    assert forall|i: int| 0 <= i < tokens.len() implies cut(#[trigger] tokens[i], '=') == Some(
        pairs[i],
    ) by {
        assert(tokens[i] == pairs[i].0 + seq!['='] + pairs[i].1);
        texts_are_cut_at_the_first(pairs[i].0, '=', pairs[i].1);
    }
    let bare = tokens.filter(lacking);
    if bare.len() > 0 {
        tokens.lemma_filter_pred(lacking, 0);
        assert(bare.contains(bare[0]));
        tokens.lemma_filter_contains_rev(lacking, bare[0]);
        let i = tokens.index_of(bare[0]);
        assert(cut(tokens[i], '=') == Some(pairs[i]));
    }
    assert(tokens.map_values(|token: Seq<char>| cut(token, '=')->0) =~= pairs);
}

/// A word without an equals sign is no assignment: LABEL refuses it, and so does ENV where
/// there is an equals sign elsewhere.
pub proof fn bare_words_are_refused(
    rest: Seq<char>,
    tokens: Seq<Seq<char>>,
    i: int,
    array: Result<Seq<Seq<char>>, Seq<char>>,
)
    requires
        0 <= i < tokens.len(),
        !tokens[i].contains('='),
    ensures
        instruction_in("LABEL"@, rest, Some(tokens), array) is Err,
        rest.contains('=') ==> instruction_in("ENV"@, rest, Some(tokens), array) is Err,
{
    lemma_keywords_differ();
    let lacking = |token: Seq<char>| cut(token, '=') is None;
    crate::text::cut_texts_glue_back(tokens[i], '=');
    tokens.lemma_filter_contains(lacking, i);
}

/// ENV without an equals sign takes one assignment: its first word is the key, and the
/// others are the value, with a space between each two.
pub proof fn spaced_assignments_are_taken(
    rest: Seq<char>,
    key: Seq<char>,
    value: Seq<char>,
    more: Seq<char>,
    array: Result<Seq<Seq<char>>, Seq<char>>,
)
    requires
        !rest.contains('='),
    ensures
        instruction_in("ENV"@, rest, Some(seq![key, value]), array) == Ok::<
            InstructionModel,
            Seq<char>,
        >(InstructionModel::Env(seq![(key, value)])),
        instruction_in("ENV"@, rest, Some(seq![key, value, more]), array) == Ok::<
            InstructionModel,
            Seq<char>,
        >(InstructionModel::Env(seq![(key, value + seq![' '] + more)])),
        instruction_in("ENV"@, rest, Some(seq![key]), array) is Err,
{
    lemma_keywords_differ();
    reveal_strlit(" ");
    assert(seq![key, value].skip(1) =~= seq![value]);
    assert(seq![key, value, more].skip(1) =~= seq![value, more]);
    assert(seq![value, more].drop_last() =~= seq![value]);
    assert(joined(seq![value], " "@) == value);
    assert(" "@ =~= seq![' ']);
}

/// COPY and ADD take their last word for the destination and those before it for the
/// sources, in their order, and the stage after `--from=` where it is named first.
pub proof fn sources_and_destinations_are_taken(
    rest: Seq<char>,
    sources: Seq<Seq<char>>,
    destination: Seq<char>,
    stage: Seq<char>,
    array: Result<Seq<Seq<char>>, Seq<char>>,
)
    requires
        sources.len() > 0,
        forall|i: int| 0 <= i < sources.len() ==> !begins(#[trigger] sources[i], "--"@),
        !begins(destination, "--"@),
    ensures
        instruction_in("COPY"@, rest, Some(sources.push(destination)), array) == Ok::<
            InstructionModel,
            Seq<char>,
        >(InstructionModel::Copy(CopyModel { from: None, sources, destination })),
        instruction_in("ADD"@, rest, Some(sources.push(destination)), array) == Ok::<
            InstructionModel,
            Seq<char>,
        >(InstructionModel::Add(CopyModel { from: None, sources, destination })),
        instruction_in(
            "COPY"@,
            rest,
            Some(seq!["--from="@ + stage] + sources.push(destination)),
            array,
        ) == Ok::<InstructionModel, Seq<char>>(
            InstructionModel::Copy(CopyModel { from: Some(stage), sources, destination }),
        ),
{
    lemma_keywords_differ();
    reveal_strlit("--from=");
    reveal_strlit("--");
    let operands = sources.push(destination);
    let option = "--from="@ + stage;
    let is_from = |token: Seq<char>| is_from_option(token);
    let is_other = |token: Seq<char>| !is_from_option(token);
    let is_option = |token: Seq<char>| begins(token, "--"@);
    assert forall|i: int| 0 <= i < operands.len() implies !begins(#[trigger] operands[i], "--"@)
        && !is_from_option(operands[i]) by {
        if i < sources.len() {
            assert(!begins(sources[i], "--"@));
        }
        if is_from_option(operands[i]) {
            assert(operands[i].take(2) =~= operands[i].take(7).take(2));
            assert("--from="@.take(2) =~= "--"@);
        }
    }
    lemma_filter_all(operands, is_other);
    lemma_filter_none(operands, is_from);
    lemma_filter_none(operands, is_option);
    assert(operands.drop_last() =~= sources);
    let tokens = seq![option] + operands;
    assert(option.take(7) =~= "--from="@);
    Seq::filter_distributes_over_add(seq![option], operands, is_from);
    Seq::filter_distributes_over_add(seq![option], operands, is_other);
    assert(is_from_option(option));
    lemma_filter_all(seq![option], is_from);
    lemma_filter_none(seq![option], is_other);
    assert(tokens.filter(is_from) =~= seq![option]);
    assert(tokens.filter(is_other) =~= operands);
    assert(option.skip(7) =~= stage);
}

proof fn lemma_filter_none<A>(s: Seq<A>, keep: spec_fn(A) -> bool)
    requires
        forall|i: int| 0 <= i < s.len() ==> !keep(#[trigger] s[i]),
    ensures
        s.filter(keep) == Seq::<A>::empty(),
{
    let kept = s.filter(keep);
    if kept.len() > 0 {
        s.lemma_filter_pred(keep, 0);
        assert(kept.contains(kept[0]));
        s.lemma_filter_contains_rev(keep, kept[0]);
        let i = s.index_of(kept[0]);
        assert(!keep(s[i]));
    }
    assert(kept =~= Seq::<A>::empty());
}

proof fn lemma_bracket(rest: Seq<char>)
    ensures
        begins(rest, "["@) == (rest.len() > 0 && rest[0] == '['),
{
    reveal_strlit("[");
    if rest.len() > 0 {
        if rest[0] == '[' {
            assert(rest.take(1) =~= "["@);
        } else {
            assert(rest.take(1)[0] != "["@[0]);
        }
    }
}

/// No keyword is another.
proof fn lemma_keywords_differ()
    ensures
        "ARG"@ != "FROM"@,
        "ENV"@ != "FROM"@,
        "ENV"@ != "ARG"@,
        "WORKDIR"@ != "FROM"@,
        "WORKDIR"@ != "ARG"@,
        "WORKDIR"@ != "ENV"@,
        "RUN"@ != "FROM"@,
        "RUN"@ != "ARG"@,
        "RUN"@ != "ENV"@,
        "RUN"@ != "WORKDIR"@,
        "COPY"@ != "FROM"@,
        "COPY"@ != "ARG"@,
        "COPY"@ != "ENV"@,
        "COPY"@ != "WORKDIR"@,
        "COPY"@ != "RUN"@,
        "ADD"@ != "FROM"@,
        "ADD"@ != "ARG"@,
        "ADD"@ != "ENV"@,
        "ADD"@ != "WORKDIR"@,
        "ADD"@ != "RUN"@,
        "ADD"@ != "COPY"@,
        "CMD"@ != "FROM"@,
        "CMD"@ != "ARG"@,
        "CMD"@ != "ENV"@,
        "CMD"@ != "WORKDIR"@,
        "CMD"@ != "RUN"@,
        "CMD"@ != "COPY"@,
        "CMD"@ != "ADD"@,
        "ENTRYPOINT"@ != "FROM"@,
        "ENTRYPOINT"@ != "ARG"@,
        "ENTRYPOINT"@ != "ENV"@,
        "ENTRYPOINT"@ != "WORKDIR"@,
        "ENTRYPOINT"@ != "RUN"@,
        "ENTRYPOINT"@ != "COPY"@,
        "ENTRYPOINT"@ != "ADD"@,
        "ENTRYPOINT"@ != "CMD"@,
        "USER"@ != "FROM"@,
        "USER"@ != "ARG"@,
        "USER"@ != "ENV"@,
        "USER"@ != "WORKDIR"@,
        "USER"@ != "RUN"@,
        "USER"@ != "COPY"@,
        "USER"@ != "ADD"@,
        "USER"@ != "CMD"@,
        "USER"@ != "ENTRYPOINT"@,
        "LABEL"@ != "FROM"@,
        "LABEL"@ != "ARG"@,
        "LABEL"@ != "ENV"@,
        "LABEL"@ != "WORKDIR"@,
        "LABEL"@ != "RUN"@,
        "LABEL"@ != "COPY"@,
        "LABEL"@ != "ADD"@,
        "LABEL"@ != "CMD"@,
        "LABEL"@ != "ENTRYPOINT"@,
        "LABEL"@ != "USER"@,
        "EXPOSE"@ != "FROM"@,
        "EXPOSE"@ != "ARG"@,
        "EXPOSE"@ != "ENV"@,
        "EXPOSE"@ != "WORKDIR"@,
        "EXPOSE"@ != "RUN"@,
        "EXPOSE"@ != "COPY"@,
        "EXPOSE"@ != "ADD"@,
        "EXPOSE"@ != "CMD"@,
        "EXPOSE"@ != "ENTRYPOINT"@,
        "EXPOSE"@ != "USER"@,
        "EXPOSE"@ != "LABEL"@,
        "VOLUME"@ != "FROM"@,
        "VOLUME"@ != "ARG"@,
        "VOLUME"@ != "ENV"@,
        "VOLUME"@ != "WORKDIR"@,
        "VOLUME"@ != "RUN"@,
        "VOLUME"@ != "COPY"@,
        "VOLUME"@ != "ADD"@,
        "VOLUME"@ != "CMD"@,
        "VOLUME"@ != "ENTRYPOINT"@,
        "VOLUME"@ != "USER"@,
        "VOLUME"@ != "LABEL"@,
        "VOLUME"@ != "EXPOSE"@,
        "SHELL"@ != "FROM"@,
        "SHELL"@ != "ARG"@,
        "SHELL"@ != "ENV"@,
        "SHELL"@ != "WORKDIR"@,
        "SHELL"@ != "RUN"@,
        "SHELL"@ != "COPY"@,
        "SHELL"@ != "ADD"@,
        "SHELL"@ != "CMD"@,
        "SHELL"@ != "ENTRYPOINT"@,
        "SHELL"@ != "USER"@,
        "SHELL"@ != "LABEL"@,
        "SHELL"@ != "EXPOSE"@,
        "SHELL"@ != "VOLUME"@,
{
    reveal_strlit("FROM");
    assert("FROM"@.len() == 4);
    reveal_strlit("ARG");
    assert("ARG"@.len() == 3);
    reveal_strlit("ENV");
    assert("ENV"@.len() == 3);
    reveal_strlit("WORKDIR");
    assert("WORKDIR"@.len() == 7);
    reveal_strlit("RUN");
    assert("RUN"@.len() == 3);
    reveal_strlit("COPY");
    assert("COPY"@.len() == 4);
    reveal_strlit("ADD");
    assert("ADD"@.len() == 3);
    reveal_strlit("CMD");
    assert("CMD"@.len() == 3);
    reveal_strlit("ENTRYPOINT");
    assert("ENTRYPOINT"@.len() == 10);
    reveal_strlit("USER");
    assert("USER"@.len() == 4);
    reveal_strlit("LABEL");
    assert("LABEL"@.len() == 5);
    reveal_strlit("EXPOSE");
    assert("EXPOSE"@.len() == 6);
    reveal_strlit("VOLUME");
    assert("VOLUME"@.len() == 6);
    reveal_strlit("SHELL");
    assert("SHELL"@.len() == 5);
    assert("ENV"@[0] != "ARG"@[0]);
    assert("RUN"@[0] != "ARG"@[0]);
    assert("RUN"@[0] != "ENV"@[0]);
    assert("COPY"@[0] != "FROM"@[0]);
    assert("ADD"@[1] != "ARG"@[1]);
    assert("ADD"@[0] != "ENV"@[0]);
    assert("ADD"@[0] != "RUN"@[0]);
    assert("CMD"@[0] != "ARG"@[0]);
    assert("CMD"@[0] != "ENV"@[0]);
    assert("CMD"@[0] != "RUN"@[0]);
    assert("CMD"@[0] != "ADD"@[0]);
    assert("USER"@[0] != "FROM"@[0]);
    assert("USER"@[0] != "COPY"@[0]);
    assert("VOLUME"@[0] != "EXPOSE"@[0]);
    assert("SHELL"@[0] != "LABEL"@[0]);
}

/// A line that would go on at the end of a Dockerfile is a line all the same, without the
/// backslash.
pub proof fn last_lines_may_go_on(front: Seq<char>)
    requires
        front.len() > 0,
        front[0] != '#',
        trimmed(front + seq![' ']).len() > 0,
    ensures
        logical_lines(seq![front + seq!['\\']], seq![]) == seq![trimmed(front + seq![' '])],
        logical_lines(Seq::<Seq<char>>::empty(), seq![]).len() == 0,
{
    reveal_strlit(" ");
    let line = front + seq!['\\'];
    let all = seq![line];
    let none: Seq<char> = seq![];
    let nothing: Seq<Seq<char>> = seq![];
    assert(line.last() == '\\');
    assert(!white_space('\\'));
    assert(trimmed_end(line) == line);
    assert(all.skip(1) =~= nothing);
    assert(line.drop_last() =~= front);
    let pending = none + line.drop_last() + " "@;
    assert(logical_lines(all, none) == logical_lines(nothing, pending));
    assert(pending =~= front + seq![' ']);
    assert(trimmed(none) =~= none);
}

} // verus!
