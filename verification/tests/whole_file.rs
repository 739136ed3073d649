use gerber_plotter::parser::{Cmd, GerberCommand, GerberReader, OperationType};

/// A file with a header of six steps, `strokes` drawing steps and the
/// closing step.
fn document(strokes: usize) -> String {
    let mut text = String::new();
    text.push_str("G04 EAGLE Gerber RS-274X export*\n");
    text.push_str("G75*\n");
    text.push_str("%MOMM*%\n");
    text.push_str("%FSLAX34Y34*%\n");
    text.push_str("%ADD10C,0.152400*%\n");
    text.push_str("D10*\n");
    for i in 0..strokes {
        let op = if i % 7 == 0 { "D02" } else { "D01" };
        text.push_str(&format!("X{}Y-{}{}*\n", 1000 + i, 2000 + 3 * i, op));
    }
    text.push_str("M02*\n");
    text
}

#[test]
fn read_whole_file() {
    let contents = document(297);
    let reader = GerberReader::new(&contents);
    let commands = reader.commands().unwrap();
    assert_eq!(commands.len(), 304);
}

#[test]
fn read_whole_big_file() {
    let contents = document(5683);
    let reader = GerberReader::new(&contents);
    let commands = reader.commands().unwrap();
    assert_eq!(commands.len(), 5690);
    assert_eq!(commands[5689], Cmd::Many(vec![GerberCommand::Stop]));
    if let Cmd::Many(stroke) = &commands[7] {
        assert_eq!(stroke.len(), 3);
        assert_eq!(stroke[2], GerberCommand::Operation(OperationType::Interpolation));
    } else {
        panic!("wrong");
    }
}
