//! Small projects made by chance, walked by the library and by a plain
//! recursive walk written out here.

use dart_unused::localisation::ClassName;
use dart_unused::resolver::Project;
use dart_unused::tree::{walk, SourceTree, WalkError};
use dart_unused::cli::Options;
use dart_unused::walker::Walker;

struct Dice(u64);

impl Dice {
    fn roll(&mut self, sides: u64) -> u64 {
        self.0 = self.0.wrapping_mul(6364136223846793005).wrapping_add(1442695040888963407);
        (self.0 >> 33) % sides
    }
}

#[derive(Clone)]
enum Line {
    Import(usize),
    Export(usize),
    Own(usize),
    Part(usize),
    Foreign(usize),
    Other,
}

fn path(i: usize) -> String {
    format!("lib/f{}.dart", i)
}

fn text(line: &Line) -> String {
    match line {
        Line::Import(i) => format!("import 'f{}.dart';", i),
        Line::Export(i) => format!("export \"./f{}.dart\" show A;", i),
        Line::Own(i) => format!("import 'package:app/f{}.dart';", i),
        Line::Part(i) => format!("part 'f{}.dart';", i),
        Line::Foreign(i) => format!("import 'package:dep{}/dep.dart';", i),
        Line::Other => "void f() {} // import 'f0.dart';".to_string(),
    }
}

fn project(dice: &mut Dice, files: usize) -> Vec<Option<Vec<Line>>> {
    (0..files)
        .map(|i| {
            if i > 0 && dice.roll(8) == 0 {
                return None;
            }
            let lines = dice.roll(5) as usize;
            Some(
                (0..lines)
                    .map(|_| {
                        let target = dice.roll(files as u64) as usize;
                        match dice.roll(7) {
                            0 | 1 => Line::Import(target),
                            2 => Line::Export(target),
                            3 => Line::Own(target),
                            4 => Line::Part(target),
                            5 => Line::Foreign(dice.roll(3) as usize),
                            _ => Line::Other,
                        }
                    })
                    .collect(),
            )
        })
        .collect()
}

struct Plain {
    visited: Vec<String>,
    deps: Vec<String>,
}

fn visit(files: &Vec<Option<Vec<Line>>>, at: usize, state: &mut Plain) -> Result<(), String> {
    let lines = match &files[at] {
        Some(lines) => lines,
        None => return Err(path(at)),
    };
    for line in lines {
        match line {
            Line::Import(i) | Line::Export(i) | Line::Own(i) => {
                if !state.visited.contains(&path(*i)) {
                    state.visited.push(path(*i));
                    visit(files, *i, state)?;
                }
            }
            Line::Part(i) => {
                if !state.visited.contains(&path(*i)) {
                    state.visited.push(path(*i));
                }
            }
            Line::Foreign(_) | Line::Other => {}
        }
    }
    let contents: Vec<String> = lines.iter().map(text).collect();
    let contents = contents.join("\n");
    state.deps.retain(|dep| !contents.contains(dep.as_str()));
    Ok(())
}

#[test]
fn walk_agrees_with_a_plain_recursive_walk() {
    let mut dice = Dice(2024);
    for round in 0..300 {
        let count = 2 + (round % 7);
        let files = project(&mut dice, count);
        let mut tree = SourceTree::new();
        for (i, lines) in files.iter().enumerate() {
            if let Some(lines) = lines {
                let contents: Vec<String> = lines.iter().map(text).collect();
                tree.insert(path(i), contents.join("\n"));
            }
        }
        let deps = vec!["dep0".to_string(), "dep1".to_string(), "dep2".to_string()];
        let options = Options {
            path: ".".to_string(),
            remove: false,
            assets: false,
            deps: true,
            labels: false,
            loc: false,
        };
        let mut walker = Walker::new(
            Project { package_name: "app".to_string(), root: "/work/app".to_string() },
            path(0),
            &options,
            &ClassName::new(),
            deps.clone(),
            Vec::new(),
            Vec::new(),
        )
        .unwrap();
        let ours = walk(&mut walker, &tree);
        let mut plain = Plain { visited: vec![path(0)], deps };
        let theirs = visit(&files, 0, &mut plain);
        match theirs {
            Ok(()) => {
                assert_eq!(ours, Ok(()), "round {}", round);
                assert_eq!(walker.visited(), &plain.visited, "round {}", round);
                assert_eq!(walker.dependencies(), &plain.deps, "round {}", round);
            }
            Err(missing) => {
                assert_eq!(ours, Err(WalkError::Unreadable(missing)), "round {}", round);
            }
        }
    }
}
