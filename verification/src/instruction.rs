//! The instructions of a Dockerfile.
use crate::text::{copy_option, copy_pairs, copy_texts};
use vstd::prelude::*;

verus! {

/// What a COPY or ADD takes, and where it puts it.
#[derive(Debug)]
pub struct CopyInstruction {
    pub from: Option<String>,
    pub sources: Vec<String>,
    pub destination: String,
}

/// One instruction of a Dockerfile.
#[derive(Debug)]
pub enum Instruction {
    From { image: String, alias: Option<String> },
    Arg { name: String, default: Option<String> },
    Env(Vec<(String, String)>),
    Workdir(String),
    Run { command: String, exec_form: bool },
    Copy(CopyInstruction),
    Add(CopyInstruction),
    Cmd(String),
    Entrypoint(String),
    User(String),
    Label(Vec<(String, String)>),
    Expose(Vec<String>),
    Volume(Vec<String>),
    Shell(Vec<String>),
}

/// A [`CopyInstruction`] as a mathematical value.
#[verifier::ext_equal]
pub struct CopyModel {
    pub from: Option<Seq<char>>,
    pub sources: Seq<Seq<char>>,
    pub destination: Seq<char>,
}

/// An [`Instruction`] as a mathematical value.
#[verifier::ext_equal]
pub enum InstructionModel {
    From { image: Seq<char>, alias: Option<Seq<char>> },
    Arg { name: Seq<char>, default: Option<Seq<char>> },
    Env(Seq<(Seq<char>, Seq<char>)>),
    Workdir(Seq<char>),
    Run { command: Seq<char>, exec_form: bool },
    Copy(CopyModel),
    Add(CopyModel),
    Cmd(Seq<char>),
    Entrypoint(Seq<char>),
    User(Seq<char>),
    Label(Seq<(Seq<char>, Seq<char>)>),
    Expose(Seq<Seq<char>>),
    Volume(Seq<Seq<char>>),
    Shell(Seq<Seq<char>>),
}

impl DeepView for CopyInstruction {
    type V = CopyModel;

    open spec fn deep_view(&self) -> CopyModel {
        CopyModel {
            from: self.from.deep_view(),
            sources: self.sources.deep_view(),
            destination: self.destination@,
        }
    }
}

impl DeepView for Instruction {
    type V = InstructionModel;

    open spec fn deep_view(&self) -> InstructionModel {
        match self {
            Instruction::From { image, alias } => InstructionModel::From {
                image: image@,
                alias: alias.deep_view(),
            },
            Instruction::Arg { name, default } => InstructionModel::Arg {
                name: name@,
                default: default.deep_view(),
            },
            Instruction::Env(pairs) => InstructionModel::Env(pairs.deep_view()),
            Instruction::Workdir(path) => InstructionModel::Workdir(path@),
            Instruction::Run { command, exec_form } => InstructionModel::Run {
                command: command@,
                exec_form: *exec_form,
            },
            Instruction::Copy(copy) => InstructionModel::Copy(copy.deep_view()),
            Instruction::Add(copy) => InstructionModel::Add(copy.deep_view()),
            Instruction::Cmd(command) => InstructionModel::Cmd(command@),
            Instruction::Entrypoint(command) => InstructionModel::Entrypoint(command@),
            Instruction::User(user) => InstructionModel::User(user@),
            Instruction::Label(pairs) => InstructionModel::Label(pairs.deep_view()),
            Instruction::Expose(ports) => InstructionModel::Expose(ports.deep_view()),
            Instruction::Volume(paths) => InstructionModel::Volume(paths.deep_view()),
            Instruction::Shell(words) => InstructionModel::Shell(words.deep_view()),
        }
    }
}

impl Clone for CopyInstruction {
    fn clone(&self) -> (copy: Self)
        ensures
            copy.deep_view() == self.deep_view(),
    {
        CopyInstruction {
            from: copy_option(&self.from),
            sources: copy_texts(&self.sources),
            destination: self.destination.clone(),
        }
    }
}

impl Clone for Instruction {
    fn clone(&self) -> (copy: Self)
        ensures
            copy.deep_view() == self.deep_view(),
    {
        match self {
            Instruction::From { image, alias } => Instruction::From {
                image: image.clone(),
                alias: copy_option(alias),
            },
            Instruction::Arg { name, default } => Instruction::Arg {
                name: name.clone(),
                default: copy_option(default),
            },
            Instruction::Env(pairs) => Instruction::Env(copy_pairs(pairs)),
            Instruction::Workdir(path) => Instruction::Workdir(path.clone()),
            Instruction::Run { command, exec_form } => Instruction::Run {
                command: command.clone(),
                exec_form: *exec_form,
            },
            Instruction::Copy(copy) => Instruction::Copy(copy.clone()),
            Instruction::Add(copy) => Instruction::Add(copy.clone()),
            Instruction::Cmd(command) => Instruction::Cmd(command.clone()),
            Instruction::Entrypoint(command) => Instruction::Entrypoint(command.clone()),
            Instruction::User(user) => Instruction::User(user.clone()),
            Instruction::Label(pairs) => Instruction::Label(copy_pairs(pairs)),
            Instruction::Expose(ports) => Instruction::Expose(copy_texts(ports)),
            Instruction::Volume(paths) => Instruction::Volume(copy_texts(paths)),
            Instruction::Shell(words) => Instruction::Shell(copy_texts(words)),
        }
    }
}

} // verus!
