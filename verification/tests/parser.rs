use clc::input_handler::{parse_command, Command};

fn parsed(line: &str) -> Result<Command, String> {
    parse_command(line.to_string())
}

#[test]
fn a_line_without_slash_is_a_message() {
    assert_eq!(parsed("hello there"), Ok(Command::SendMessage("hello there".to_string())));
    assert_eq!(parsed(""), Ok(Command::SendMessage(String::new())));
    assert_eq!(parsed("a /q"), Ok(Command::SendMessage("a /q".to_string())));
}

#[test]
fn commands_without_arguments() {
    assert_eq!(parsed("/?"), Ok(Command::Help));
    assert_eq!(parsed("/i"), Ok(Command::Info));
    assert_eq!(parsed("/l"), Ok(Command::ListMembers));
    assert_eq!(parsed("/q"), Ok(Command::Quit));
    assert_eq!(parsed("/n"), Ok(Command::CreateInvite));
}

#[test]
fn help_info_list_and_quit_take_any_arguments() {
    assert_eq!(parsed("/? now"), Ok(Command::Help));
    assert_eq!(parsed("/i a b"), Ok(Command::Info));
    assert_eq!(parsed("/l x"), Ok(Command::ListMembers));
    assert_eq!(parsed("/q please"), Ok(Command::Quit));
}

#[test]
fn commands_with_arguments() {
    assert_eq!(
        parsed("/c localhost:10000 alice"),
        Ok(Command::Connect("localhost:10000".to_string(), "alice".to_string()))
    );
    assert_eq!(parsed("/p general"), Ok(Command::CreateChat("general".to_string())));
    assert_eq!(
        parsed("/j general abc123"),
        Ok(Command::Join("general".to_string(), "abc123".to_string()))
    );
    assert_eq!(parsed("/k bob"), Ok(Command::Kick("bob".to_string())));
    assert_eq!(parsed("/f ./notes.txt"), Ok(Command::Upload("./notes.txt".to_string())));
    assert_eq!(parsed("/y bob"), Ok(Command::Admin("bob".to_string())));
}

#[test]
fn blanks_between_arguments_do_not_count() {
    assert_eq!(
        parsed("/j   general    abc"),
        Ok(Command::Join("general".to_string(), "abc".to_string()))
    );
}

#[test]
fn wrong_number_of_arguments() {
    assert_eq!(parsed("/c host"), Err("Command /c expects 2 args, found 1".to_string()));
    assert_eq!(parsed("/c"), Err("Command /c expects 2 args, found 0".to_string()));
    assert_eq!(parsed("/p"), Err("Command /p expects 1 args, found 0".to_string()));
    assert_eq!(parsed("/p a b"), Err("Command /p expects 1 args, found 2".to_string()));
    assert_eq!(parsed("/j a"), Err("Command /j expects 2 args, found 1".to_string()));
    assert_eq!(parsed("/k"), Err("Command /k expects 1 args, found 0".to_string()));
    assert_eq!(parsed("/f"), Err("Command /f expects 1 args, found 0".to_string()));
    assert_eq!(parsed("/y a b c"), Err("Command /y expects 1 args, found 3".to_string()));
    assert_eq!(parsed("/n now"), Err("Command /n expects 0 args, found 1".to_string()));
}

#[test]
fn many_arguments_are_counted_in_decimal() {
    assert_eq!(
        parsed("/p 1 2 3 4 5 6 7 8 9 10 11 12"),
        Err("Command /p expects 1 args, found 12".to_string())
    );
}

#[test]
fn what_is_no_command() {
    assert_eq!(parsed("/"), Err("Invalid command '/'. Type '/?' for help".to_string()));
    assert_eq!(parsed("/x"), Err("Invalid command '/x'. Type '/?' for help".to_string()));
    assert_eq!(
        parsed("/quit"),
        Err("Invalid command '/quit'. Type '/?' for help".to_string())
    );
    assert_eq!(parsed("/ q"), Err("Invalid command '/ q'. Type '/?' for help".to_string()));
    assert_eq!(
        parsed("/\u{e9}"),
        Err("Invalid command '/\u{e9}'. Type '/?' for help".to_string())
    );
    assert_eq!(parsed("/Q"), Err("Invalid command '/Q'. Type '/?' for help".to_string()));
}

#[test]
fn cmd_ident_names_each_command() {
    let s = || "x".to_string();
    assert_eq!(Command::Help.cmd_ident(), "/?");
    assert_eq!(Command::Info.cmd_ident(), "/i");
    assert_eq!(Command::Connect(s(), s()).cmd_ident(), "/c");
    assert_eq!(Command::CreateChat(s()).cmd_ident(), "/p");
    assert_eq!(Command::Join(s(), s()).cmd_ident(), "/j");
    assert_eq!(Command::ListMembers.cmd_ident(), "/l");
    assert_eq!(Command::CreateInvite.cmd_ident(), "/n");
    assert_eq!(Command::Kick(s()).cmd_ident(), "/k");
    assert_eq!(Command::Quit.cmd_ident(), "/q");
    assert_eq!(Command::Upload(s()).cmd_ident(), "/f");
    assert_eq!(Command::Admin(s()).cmd_ident(), "/y");
    assert_eq!(Command::SendMessage(s()).cmd_ident(), "message");
}
