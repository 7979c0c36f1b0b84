use pngme::args::{
    parse_command, process_args, ArgsError, DecodeArgs, EncodeArgs, PngMeArgs, PrintArgs,
    RemoveArgs,
};

fn line(words: &[&str]) -> Vec<String> {
    words.iter().map(|w| w.to_string()).collect()
}

#[test]
fn encode_arguments() {
    match process_args(&line(&["pngme", "ENCODE", "a.png", "ruSt", "hi"])) {
        Ok(PngMeArgs::Encode(a)) => {
            assert_eq!(a.path, "a.png");
            assert_eq!(a.chunk_type, "ruSt");
            assert_eq!(a.message, "hi");
            assert_eq!(a.output_file, None);
        }
        _ => panic!("expected encode"),
    }
    let a = EncodeArgs::new(&line(&["encode", "a.png", "ruSt", "hi", "b.png"])).unwrap();
    assert_eq!(a.output_file, Some(String::from("b.png")));
}

#[test]
fn other_commands() {
    assert!(matches!(process_args(&line(&["p", "Decode", "a.png", "ruSt"])), Ok(PngMeArgs::Decode(_))));
    assert!(matches!(process_args(&line(&["p", "remove", "a.png", "ruSt"])), Ok(PngMeArgs::Remove(_))));
    assert!(matches!(process_args(&line(&["p", "print", "a.png"])), Ok(PngMeArgs::Print(_))));
    let d = DecodeArgs::new(&line(&["decode", "a.png", "ruSt"])).unwrap();
    assert_eq!((d.path.as_str(), d.chunk_type.as_str()), ("a.png", "ruSt"));
    let r = RemoveArgs::new(&line(&["remove", "a.png", "ruSt"])).unwrap();
    assert_eq!((r.path.as_str(), r.chunk_type.as_str()), ("a.png", "ruSt"));
    assert_eq!(PrintArgs::new(&line(&["print", "a.png"])).unwrap().path, "a.png");
}

#[test]
fn argument_errors() {
    assert_eq!(process_args(&line(&["pngme"])).err(), Some(ArgsError::NotEnoughArgs(1)));
    assert_eq!(
        process_args(&line(&["pngme", "FROB", "x"])).err(),
        Some(ArgsError::InvalidCommand(String::from("frob")))
    );
    assert_eq!(process_args(&line(&["p", "encode", "a", "b"])).err(), Some(ArgsError::NotEnoughArgs(3)));
    assert_eq!(
        process_args(&line(&["p", "encode", "a", "b", "c", "d", "e"])).err(),
        Some(ArgsError::TooManyArgs(6))
    );
    assert_eq!(process_args(&line(&["p", "print"])).err(), Some(ArgsError::NotEnoughArgs(1)));
    assert_eq!(process_args(&line(&["p", "decode", "a", "b", "c"])).err(), Some(ArgsError::TooManyArgs(4)));
    assert_eq!(
        parse_command(String::from("ENCODE"), &line(&["p", "ENCODE"])).err(),
        Some(ArgsError::InvalidCommand(String::from("ENCODE")))
    );
}
