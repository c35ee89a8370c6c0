use qvnt::interpreter::commands::{self, Commands};
use qvnt::interpreter::int_tree::{self, IntTree, RemoveStatus};
use qvnt::interpreter::lines::{self, Command, Line};
use qvnt::interpreter::owned_errors::{AstError, IntError, MacroError};
use qvnt::interpreter::process::{path_tag, process_tag_cmd, CommandCursor, Error, TagOutcome};
use qvnt::interpreter::program::{handle_error, Block, LineAction, BLCK, SIGN};

#[test]
fn commands_parse_cmd() {
    assert_eq!(
        "a b c d".parse::<Commands>(),
        Err(commands::Error::MissingCollon)
    );
    assert_eq!(
        ":a b c d".parse::<Commands>(),
        Err(commands::Error::UnknownCommand("b".to_string()))
    );
}

#[test]
fn commands_print_help() {
    println!("{}", commands::HELP);
}

#[test]
fn lines_parse_cmd() {
    assert_eq!("a b c d".parse::<Line>(), Ok(Line::Qasm));
    assert_eq!(
        ":a b c d".parse::<Line>(),
        Err(lines::Error::UnknownCommand("a".to_string()))
    );
}

#[test]
fn lines_print_help() {
    println!("{}", lines::HELP);
}

#[test]
fn lines_parse_commands() {
    assert_eq!(
        ":loop 3 go".parse::<Line>(),
        Ok(Line::Commands(vec![Command::Loop(3), Command::Go]))
    );
    assert_eq!(
        ":loop x".parse::<Line>(),
        Err(lines::Error::UnspecifiedInt)
    );
    assert_eq!(":load".parse::<Line>(), Err(lines::Error::UnspecifiedPath));
    assert_eq!(
        ":tag mk".parse::<Line>(),
        Err(lines::Error::TagError(int_tree::Error::UnspecifiedTag))
    );
}

#[test]
fn lines_tag_commands() {
    assert_eq!(
        ":tags".parse::<Line>(),
        Ok(Line::Commands(vec![Command::Tags(int_tree::Command::List)]))
    );
    assert_eq!(
        ":tag reg".parse::<Line>(),
        Ok(Line::Commands(vec![Command::Tags(int_tree::Command::Create("reg".to_string()))]))
    );
    assert_eq!(
        ":to reg".parse::<Line>(),
        Ok(Line::Commands(vec![Command::Tags(int_tree::Command::Checkout("reg".to_string()))]))
    );
    assert_eq!(
        ":reset".parse::<Line>(),
        Ok(Line::Commands(vec![Command::Tags(int_tree::Command::Reset)]))
    );
    assert_eq!(
        ":r go".parse::<Line>(),
        Ok(Line::Commands(vec![Command::Tags(int_tree::Command::Reset), Command::Go]))
    );
    assert_eq!(
        ":tag mk a".parse::<Line>(),
        Ok(Line::Commands(vec![Command::Tags(int_tree::Command::Create("a".to_string()))]))
    );
    assert_eq!(
        ":to".parse::<Line>(),
        Err(lines::Error::TagError(int_tree::Error::UnspecifiedTag))
    );
}

#[test]
fn error_messages() {
    assert_eq!(
        lines::Error::ExistedTagName("a".to_string()).message(),
        "Tag name \"a\" already exists"
    );
    assert_eq!(
        lines::Error::TagIsParent("reg".to_string()).message(),
        "Tag \"reg\" is parent and cannot be removed"
    );
    assert_eq!(
        lines::Error::WrongTagName("x y".to_string()).message(),
        "There's no tag \"x y\""
    );
    assert_eq!(
        lines::Error::TagError(int_tree::Error::UnknownTagCmd("zz".to_string())).message(),
        "Tag error: Unknown Tag subcommand \"zz\""
    );
    assert_eq!(
        lines::Error::UnknownCommand("b".to_string()).message(),
        "Unknown command: b"
    );
    assert_eq!(
        lines::Error::WrongTagName("a\"b".to_string()).message(),
        format!("There's no tag {:?}", "a\"b")
    );
    assert_eq!(
        commands::Error::UnspecifiedInt.message(),
        "Integer must be specified to loop over comands"
    );
}

fn run(line: &str) -> Vec<Command> {
    let cmds = match line.parse::<Line>() {
        Ok(Line::Commands(c)) => c,
        _ => panic!("not a command line"),
    };
    let mut cursor = CommandCursor::new(cmds);
    let mut out = Vec::new();
    while let Some(c) = cursor.next() {
        out.push(c);
    }
    assert_eq!(cursor.next(), None);
    out
}

#[test]
fn loops_unroll() {
    assert_eq!(run(":go class"), vec![Command::Go, Command::Class]);
    assert_eq!(run(":loop 2 go"), vec![Command::Go, Command::Go]);
    assert_eq!(
        run(":go loop 3 class loop 0 polar"),
        vec![Command::Go, Command::Class, Command::Class, Command::Class]
    );
    assert_eq!(
        run(":loop 2 go loop 2 class"),
        vec![
            Command::Go,
            Command::Class,
            Command::Class,
            Command::Go,
            Command::Class,
            Command::Class
        ]
    );
    assert_eq!(run(":loop 0 go"), Vec::<Command>::new());
}

#[test]
fn tag_tree() {
    let mut tree: IntTree<u32> = IntTree::with_root(String::new(), 0);
    assert!(tree.commit("reg", 1));
    assert!(!tree.commit("reg", 9));
    assert!(tree.commit("ops", 2));
    assert_eq!(
        tree.collect_to_head().unwrap().into_iter().copied().collect::<Vec<_>>(),
        vec![0, 1, 2]
    );
    assert!(tree.checkout("reg"));
    assert_eq!(
        tree.collect_to_head().unwrap().into_iter().copied().collect::<Vec<_>>(),
        vec![0, 1]
    );
    assert!(!tree.checkout("nope"));
    assert_eq!(tree.remove("reg"), RemoveStatus::IsHead);
    assert!(tree.checkout("ops"));
    assert_eq!(tree.remove("reg"), RemoveStatus::IsParent);
    assert_eq!(tree.remove("zzz"), RemoveStatus::NotFound);
    assert!(tree.checkout("reg"));
    assert_eq!(tree.remove("ops"), RemoveStatus::Removed);
    assert_eq!(tree.find("ops"), None);
    assert_eq!(
        tree.keys(),
        vec![("reg".to_string(), "".to_string())]
    );
}

#[test]
fn tag_commands() {
    let mut tree: IntTree<u32> = IntTree::with_root(String::new(), 0);
    assert_eq!(
        process_tag_cmd(&mut tree, int_tree::Command::Create("a".to_string()), 5),
        Ok(TagOutcome::Created)
    );
    assert_eq!(
        process_tag_cmd(&mut tree, int_tree::Command::Create("a".to_string()), 6),
        Err(Error::Line(lines::Error::ExistedTagName("a".to_string())))
    );
    assert_eq!(
        process_tag_cmd(&mut tree, int_tree::Command::List, 0),
        Ok(TagOutcome::Listed(vec![("a".to_string(), "".to_string())]))
    );
    assert_eq!(
        process_tag_cmd(&mut tree, int_tree::Command::Checkout("b".to_string()), 0),
        Err(Error::Line(lines::Error::WrongTagName("b".to_string())))
    );
    assert_eq!(
        process_tag_cmd(&mut tree, int_tree::Command::Remove("a".to_string()), 0),
        Err(Error::Line(lines::Error::TagIsHead("a".to_string())))
    );
    assert_eq!(
        process_tag_cmd(&mut tree, int_tree::Command::Reset, 0),
        Ok(TagOutcome::Reset)
    );
    assert_eq!(
        process_tag_cmd(&mut tree, int_tree::Command::Remove("".to_string()), 0),
        Err(Error::Line(lines::Error::TagIsHead("".to_string())))
    );
    assert_eq!(
        process_tag_cmd(&mut tree, int_tree::Command::Checkout("a".to_string()), 0),
        Ok(TagOutcome::CheckedOut)
    );
    assert_eq!(
        tree.collect_to_head().unwrap().into_iter().copied().collect::<Vec<_>>(),
        vec![0, 5]
    );
    assert_eq!(
        process_tag_cmd(&mut tree, int_tree::Command::Remove("".to_string()), 0),
        Err(Error::Line(lines::Error::TagIsParent("".to_string())))
    );
    assert_eq!(
        process_tag_cmd(&mut tree, int_tree::Command::Help, 0),
        Ok(TagOutcome::Help)
    );

    let mut rootless: IntTree<u32> = IntTree::with_root("top".to_string(), 0);
    assert_eq!(
        process_tag_cmd(&mut rootless, int_tree::Command::Reset, 0),
        Err(Error::Inner)
    );
}

#[test]
fn load_tag() {
    assert_eq!(path_tag("a/b.qasm"), "file://a/b.qasm");
}

#[test]
fn blocks() {
    let mut block = Block::new();
    assert_eq!(block.prompt(), SIGN);
    assert_eq!(block.feed(":tags".to_string()), LineAction::Line(":tags".to_string()));
    assert_eq!(block.feed("gate g a {".to_string()), LineAction::Wait);
    assert_eq!(block.prompt(), BLCK);
    assert_eq!(block.feed(" h a;".to_string()), LineAction::Wait);
    assert_eq!(
        block.feed("}".to_string()),
        LineAction::Qasm("gate g a { h a;}".to_string())
    );
    assert!(!block.open);
    assert_eq!(block.text, "");
    assert_eq!(block.feed("}".to_string()), LineAction::Line("}".to_string()));
    assert_eq!(block.feed(String::new()), LineAction::Line(String::new()));
}

#[test]
fn exit_codes() {
    assert_eq!(handle_error(&Ok(())), None);
    assert_eq!(handle_error(&Err(Error::Inner)), Some(0xDE));
    assert_eq!(handle_error(&Err(Error::Unimplemented)), Some(0xDE));
    assert_eq!(handle_error(&Err(Error::Quit(0))), Some(0));
    assert_eq!(handle_error(&Err(Error::Quit(3))), Some(3));
    assert_eq!(
        handle_error(&Err(Error::Line(lines::Error::UnspecifiedInt))),
        None
    );
    assert_eq!(handle_error(&Err(Error::Dyn("io".to_string()))), None);
}

#[test]
fn front_end_error_messages() {
    assert_eq!(AstError::EmptySource.message(), "Given an empty source");
    assert_eq!(
        AstError::ParseError("bad".to_string()).message(),
        "Parser error: \"bad\""
    );
    assert_eq!(
        IntError::IdxOutOfRange("q".to_string(), 7).message(),
        "Index (=7) is out of bounds for register: q[7]"
    );
    assert_eq!(
        IntError::DupQReg("q".to_string(), 4).message(),
        "Quantum register with a similar name \"q\"  already defined with \"qreg q[4]\""
    );
    assert_eq!(
        IntError::MacroError(MacroError::DisallowedRegister("r".to_string(), 2)).message(),
        "Indexing qubits (r[2]) isn't allowed in Gate definition"
    );
    assert_eq!(
        IntError::InvalidControlMask(3, 12).message(),
        "Control mask (3) should not overlap with operators' qubits (12)"
    );
}

#[test]
fn tag_subcommand_read_position() {
    let words: Vec<String> = ["zz", "ls", "mk"].iter().map(|w| w.to_string()).collect();
    let mut pos = 0usize;
    assert_eq!(
        int_tree::Command::parse_command(&words, &mut pos),
        Err(int_tree::Error::UnknownTagCmd("zz".to_string()))
    );
    assert_eq!(pos, 1);
    assert_eq!(int_tree::Command::parse_command(&words, &mut pos), Ok(int_tree::Command::List));
    assert_eq!(pos, 2);
    assert_eq!(
        int_tree::Command::parse_command(&words, &mut pos),
        Err(int_tree::Error::UnspecifiedTag)
    );
    assert_eq!(pos, 3);
    assert_eq!(int_tree::Command::parse_command(&words, &mut pos), Ok(int_tree::Command::List));
    assert_eq!(pos, 3);
}
