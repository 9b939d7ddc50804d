//! What the command line and the environment ask for.
use crate::sim::{Scene, SceneView};
use crate::text::{decimal_text, parse_unsigned, same};
use vstd::prelude::*;
use vstd::string::StringExecFns;

verus! {

/// A command-line argument; absent where it is not valid Unicode.
pub type Argument = Option<String>;

pub open spec fn is_text(arg: Argument, text: Seq<char>) -> bool {
    arg matches Some(s) && s@ == text
}

fn is(arg: &Argument, text: &str) -> (r: bool)
    ensures
        r == is_text(*arg, text@),
{
    match arg {
        Some(s) => same(s.as_str(), text),
        None => false,
    }
}

/// What the command line says. Numbers are positions on it.
#[derive(Clone, Copy, Debug, PartialEq, Eq, Structural)]
pub enum CommandLine {
    Help,
    /// A second configuration file is named.
    TwoFiles,
    /// The argument there lacks its file.
    NoFile(usize),
    Unknown(usize),
    /// Explicit files take precedence over environment and built-in presets.
    File { path: usize, check_only: bool },
    NoneNamed,
}

pub open spec fn takes_file(arg: Argument) -> bool {
    is_text(arg, "--config"@) || is_text(arg, "--check-config"@)
}

/// What the arguments from `from` on say, given the file named before them.
pub open spec fn read(args: Seq<Argument>, from: nat, named: Option<(usize, bool)>) -> CommandLine
    decreases args.len() - from,
{
    if from >= args.len() {
        match named {
            Some((path, check_only)) => CommandLine::File { path, check_only },
            None => CommandLine::NoneNamed,
        }
    } else {
        let arg = args[from as int];
        if is_text(arg, "--help"@) || is_text(arg, "-h"@) {
            CommandLine::Help
        } else if is_text(arg, "--game"@) {
            read(args, from + 1, named)
        } else if takes_file(arg) {
            if named is Some {
                CommandLine::TwoFiles
            } else if from + 1 >= args.len() {
                CommandLine::NoFile(from as usize)
            } else {
                read(
                    args,
                    from + 2,
                    Some(((from + 1) as usize, is_text(arg, "--check-config"@))),
                )
            }
        } else {
            CommandLine::Unknown(from as usize)
        }
    }
}

/// Reads the command line, whose first entry is the program itself.
pub fn read_arguments(args: &Vec<Argument>) -> (r: CommandLine)
    ensures
        r == read(args@, 1, None),
{
    let mut named: Option<(usize, bool)> = None;
    let mut i: usize = 1;
    while i < args.len()
        invariant
            args@.len() == args.len(),
            i >= 1,
            read(args@, 1, None) == read(args@, i as nat, named),
        decreases args.len() - i,
    {
        let arg = &args[i];
        if is(arg, "--help") || is(arg, "-h") {
            return CommandLine::Help;
        }
        if is(arg, "--game") {
            i += 1;
        } else if is(arg, "--config") || is(arg, "--check-config") {
            if named.is_some() {
                return CommandLine::TwoFiles;
            }
            if i + 1 >= args.len() {
                return CommandLine::NoFile(i);
            }
            named = Some((i + 1, is(arg, "--check-config")));
            if i + 2 > args.len() - 1 {
                assert(read(args@, 1, None) == read(args@, (i + 2) as nat, named));
                return finish(named);
            }
            i += 2;
        } else {
            return CommandLine::Unknown(i);
        }
    }
    finish(named)
}

fn finish(named: Option<(usize, bool)>) -> (r: CommandLine)
    ensures
        r == (match named {
            Some((path, check_only)) => CommandLine::File { path, check_only },
            None => CommandLine::NoneNamed,
        }),
{
    match named {
        Some((path, check_only)) => CommandLine::File { path, check_only },
        None => CommandLine::NoneNamed,
    }
}

/// Whether the puzzle is asked for anywhere on the command line.
pub open spec fn wants_puzzle(args: Seq<Argument>) -> bool {
    exists|i: int| 0 <= i < args.len() && is_text(#[trigger] args[i], "--game"@)
}

pub fn game_requested(args: &Vec<Argument>) -> (r: bool)
    ensures
        r == wants_puzzle(args@),
{
    let mut i: usize = 0;
    while i < args.len()
        invariant
            i <= args@.len(),
            forall|j: int| 0 <= j < i ==> !is_text(#[trigger] args@[j], "--game"@),
        decreases args.len() - i,
    {
        if is(&args[i], "--game") {
            assert(is_text(args@[i as int], "--game"@));
            return true;
        }
        i += 1;
    }
    false
}

/// Where the first scene comes from.
#[derive(Clone, Copy, Debug, PartialEq, Eq, Structural)]
pub enum Source {
    /// The file that the command line names.
    Named,
    /// The file that the environment names.
    Environment,
    Puzzle,
    Halo,
    SolarSystem,
    /// Built in.
    Calyx,
    Saturn,
    UnknownPreset,
}

pub open spec fn source_of(
    named: bool,
    environment: bool,
    preset: Option<Seq<char>>,
    game: bool,
) -> Source {
    if named {
        Source::Named
    } else if environment {
        Source::Environment
    } else {
        match preset {
            None => if game {
                Source::Puzzle
            } else {
                Source::Halo
            },
            Some(p) => if p == "halo"@ || p == "binary"@ {
                Source::Halo
            } else if p == "earth"@ {
                Source::SolarSystem
            } else if p == "calyx"@ {
                Source::Calyx
            } else if p == "solar"@ || p == "sol"@ || p == "saturn"@ {
                Source::Saturn
            } else {
                Source::UnknownPreset
            },
        }
    }
}

/// Explicit CLI files take precedence over environment and built-in presets.
pub fn choose_source(
    named: bool,
    environment: bool,
    preset: &Option<String>,
    game: bool,
) -> (r: Source)
    ensures
        r == source_of(named, environment, crate::menu::text_view(*preset), game),
{
    if named {
        return Source::Named;
    }
    if environment {
        return Source::Environment;
    }
    match preset {
        None => if game {
            Source::Puzzle
        } else {
            Source::Halo
        },
        Some(preset) => {
            let p = preset.as_str();
            if same(p, "halo") || same(p, "binary") {
                Source::Halo
            } else if same(p, "earth") {
                Source::SolarSystem
            } else if same(p, "calyx") {
                Source::Calyx
            } else if same(p, "solar") || same(p, "sol") || same(p, "saturn") {
                Source::Saturn
            } else {
                Source::UnknownPreset
            }
        },
    }
}

/// What is said of a configuration that passed.
pub open spec fn summary_of(scene: SceneView) -> Seq<char> {
    "Valid system: "@ + crate::text::decimal(scene.bodies.len()) + " bodies; camera on "@
        + scene.bodies[scene.host as int].name + ", looking at "@
        + scene.bodies[scene.default_target as int].name
}

pub fn valid_summary(scene: &Scene) -> (r: String)
    requires
        scene@.well_formed(),
    ensures
        r@ == summary_of(scene@),
{
    let mut r = String::from_str("Valid system: ");
    let n: usize = scene.bodies.len();
    r.append(decimal_text(n as u64).as_str());
    r.append(" bodies; camera on ");
    r.append(scene.body(scene.host).name.as_str());
    r.append(", looking at ");
    r.append(scene.body(scene.default_target).name.as_str());
    r
}

/// What the first view aims at.
#[derive(Clone, Copy, Debug, PartialEq, Eq, Structural)]
pub enum FirstAim {
    /// The scene's own target, with the scene's field of view.
    Default,
    Body(usize),
    /// A number that no body has.
    NoSuchBody(usize),
}

pub open spec fn first_aim_of(setting: Option<Seq<char>>, bodies: nat) -> FirstAim {
    match setting {
        None => FirstAim::Default,
        Some(s) => match crate::text::unsigned(s, usize::MAX as nat) {
            None => FirstAim::Default,
            Some(i) => if i < bodies {
                FirstAim::Body(i as usize)
            } else {
                FirstAim::NoSuchBody(i as usize)
            },
        },
    }
}

/// What the first view aims at, given the environment's setting.
pub fn first_aim(setting: &Option<String>, bodies: usize) -> (r: FirstAim)
    ensures
        r == first_aim_of(crate::menu::text_view(*setting), bodies as nat),
{
    match setting {
        None => FirstAim::Default,
        Some(s) => match parse_unsigned(s.as_str(), usize::MAX as u64) {
            None => FirstAim::Default,
            Some(i) => {
                let i: usize = i as usize;
                if i < bodies {
                    FirstAim::Body(i)
                } else {
                    FirstAim::NoSuchBody(i)
                }
            },
        },
    }
}

/// A file named on the command line is used whatever the environment says.
pub proof fn law_named_files_win(environment: bool, preset: Option<Seq<char>>, game: bool)
    ensures
        source_of(true, environment, preset, game) == Source::Named,
        source_of(false, true, preset, game) == Source::Environment,
{
}

/// Whether the argument asks for help.
pub open spec fn asks_help(arg: Argument) -> bool {
    is_text(arg, "--help"@) || is_text(arg, "-h"@)
}

/// Whether the argument only asks for the puzzle.
pub open spec fn asks_puzzle(arg: Argument) -> bool {
    is_text(arg, "--game"@)
}

/// Whether every argument from `from` on, but those at `a` and `b`, only asks for the
/// puzzle.
pub open spec fn only_puzzle(args: Seq<Argument>, from: int, a: int, b: int) -> bool {
    forall|i: int| from <= i < args.len() && i != a && i != b ==> asks_puzzle(#[trigger] args[i])
}

proof fn lemma_read(args: Seq<Argument>, from: nat, named: Option<(usize, bool)>)
    requires
        args.len() <= usize::MAX,
    ensures
        match read(args, from, named) {
            CommandLine::File { path, check_only } => {
                ||| named == Some((path, check_only)) && only_puzzle(args, from as int, -1, -1)
                ||| {
                    &&& named is None
                    &&& from < path < args.len()
                    &&& is_text(args[path - 1], "--config"@) || is_text(
                        args[path - 1],
                        "--check-config"@,
                    )
                    &&& check_only <==> is_text(args[path - 1], "--check-config"@)
                    &&& only_puzzle(args, from as int, path - 1, path as int)
                }
            },
            CommandLine::NoneNamed => named is None && only_puzzle(args, from as int, -1, -1),
            CommandLine::Unknown(i) => {
                &&& from <= i < args.len()
                &&& !asks_help(args[i as int]) && !asks_puzzle(args[i as int])
                &&& !is_text(args[i as int], "--config"@) && !is_text(
                    args[i as int],
                    "--check-config"@,
                )
            },
            CommandLine::NoFile(i) => {
                &&& from <= i
                &&& i + 1 == args.len()
                &&& is_text(args[i as int], "--config"@) || is_text(
                    args[i as int],
                    "--check-config"@,
                )
            },
            CommandLine::Help => exists|i: int|
                from <= i < args.len() && asks_help(#[trigger] args[i]),
            CommandLine::TwoFiles => exists|i: int|
                from <= i < args.len() && (is_text(#[trigger] args[i], "--config"@) || is_text(
                    args[i],
                    "--check-config"@,
                )),
        },
        only_puzzle(args, from as int, -1, -1) ==> read(args, from, named) == (match named {
            Some((path, check_only)) => CommandLine::File { path, check_only },
            None => CommandLine::NoneNamed,
        }),
    decreases args.len() - from,
{
    lemma_words();
    if from < args.len() {
        let arg = args[from as int];
        lemma_read(args, from + 1, named);
        if takes_file(arg) && named is None && from + 1 < args.len() {
            let next = Some(((from + 1) as usize, is_text(arg, "--check-config"@)));
            lemma_read(args, from + 2, next);
        }
    }
}

/// The options are different words.
proof fn lemma_words()
    ensures
        "--config"@ != "--check-config"@,
        "--game"@ != "--config"@,
        "--game"@ != "--check-config"@,
        "--game"@ != "--help"@,
        "--game"@ != "-h"@,
        "--config"@ != "--help"@,
        "--config"@ != "-h"@,
        "--check-config"@ != "--help"@,
        "--check-config"@ != "-h"@,
{
    reveal_strlit("--config");
    reveal_strlit("--check-config");
    reveal_strlit("--help");
    reveal_strlit("-h");
    reveal_strlit("--game");
    assert("--config"@[2] == 'c' && "--check-config"@[2] == 'c' && "--help"@[2] == 'h'
        && "--game"@[2] == 'g');
    assert("-h"@.len() == 2 && "--config"@.len() == 8 && "--check-config"@.len() == 14);
}

/// What the command line says: a file exactly where one option names it and every
/// other argument only asks for the puzzle, checked only if the option was the one
/// for checking; otherwise the answer points at an argument that explains it.
pub proof fn law_command_line(args: Seq<Argument>)
    requires
        1 <= args.len() <= usize::MAX,
    ensures
        match read(args, 1, None) {
            CommandLine::File { path, check_only } => {
                &&& 2 <= path < args.len()
                &&& is_text(args[path - 1], "--config"@) || is_text(
                    args[path - 1],
                    "--check-config"@,
                )
                &&& check_only <==> is_text(args[path - 1], "--check-config"@)
                &&& only_puzzle(args, 1, path - 1, path as int)
            },
            CommandLine::NoneNamed => only_puzzle(args, 1, -1, -1),
            CommandLine::Unknown(i) => {
                &&& 1 <= i < args.len()
                &&& !asks_help(args[i as int]) && !asks_puzzle(args[i as int])
                &&& !is_text(args[i as int], "--config"@) && !is_text(
                    args[i as int],
                    "--check-config"@,
                )
            },
            CommandLine::NoFile(i) => {
                &&& 1 <= i && i + 1 == args.len()
                &&& is_text(args[i as int], "--config"@) || is_text(
                    args[i as int],
                    "--check-config"@,
                )
            },
            CommandLine::Help => exists|i: int|
                1 <= i < args.len() && asks_help(#[trigger] args[i]),
            CommandLine::TwoFiles => exists|i: int|
                1 <= i < args.len() && (is_text(#[trigger] args[i], "--config"@) || is_text(
                    args[i],
                    "--check-config"@,
                )),
        },
        only_puzzle(args, 1, -1, -1) ==> read(args, 1, None) == CommandLine::NoneNamed,
        args.len() > 1 && asks_help(args[1]) ==> read(args, 1, None) == CommandLine::Help,
{
    lemma_read(args, 1, None);
}

/// One option with its file behind it, among arguments that only ask for the puzzle,
/// names that file; a second option is one too many, and one without a file lacks it.
pub proof fn law_one_file(args: Seq<Argument>, k: int)
    requires
        args.len() <= usize::MAX,
        1 <= k < args.len(),
        is_text(args[k], "--config"@) || is_text(args[k], "--check-config"@),
        forall|i: int| 1 <= i < k ==> asks_puzzle(#[trigger] args[i]),
    ensures
        k + 1 < args.len() && only_puzzle(args, k + 2, -1, -1) ==> read(args, 1, None) == (
        CommandLine::File {
            path: (k + 1) as usize,
            check_only: is_text(args[k], "--check-config"@),
        }),
        k + 1 == args.len() ==> read(args, 1, None) == CommandLine::NoFile(k as usize),
        k + 2 < args.len() && (is_text(args[k + 2], "--config"@) || is_text(
            args[k + 2],
            "--check-config"@,
        )) ==> read(args, 1, None) == CommandLine::TwoFiles,
{
    lemma_words();
    lemma_reaches(args, 1, k);
    if k + 1 < args.len() {
        let next = Some(((k + 1) as usize, is_text(args[k], "--check-config"@)));
        lemma_read(args, (k + 2) as nat, next);
    }
}

/// Arguments that only ask for the puzzle are passed over.
proof fn lemma_reaches(args: Seq<Argument>, from: nat, k: int)
    requires
        from <= k < args.len(),
        forall|i: int| from <= i < k ==> asks_puzzle(#[trigger] args[i]),
    ensures
        read(args, from, None) == read(args, k as nat, None),
    decreases k - from,
{
    lemma_words();
    if from < k {
        assert(asks_puzzle(args[from as int]));
        lemma_reaches(args, from + 1, k);
    }
}

/// Where the first scene comes from when no file is named: the built-in puzzle for a
/// puzzle without a preset, the halo else, and for a preset the system of that name.
pub proof fn law_sources(preset: Option<Seq<char>>, game: bool)
    ensures
        ({
            let s = source_of(false, false, preset, game);
            let is = |name: Seq<char>| preset == Some(name);
            &&& preset is None ==> s == (if game {
                Source::Puzzle
            } else {
                Source::Halo
            })
            &&& s == Source::Puzzle ==> preset is None && game
            &&& preset is Some ==> (s == Source::Halo <==> is("halo"@) || is("binary"@))
            &&& s == Source::SolarSystem <==> is("earth"@)
            &&& s == Source::Calyx <==> is("calyx"@)
            &&& s == Source::Saturn <==> is("saturn"@) || is("solar"@) || is("sol"@)
            &&& s != Source::Named && s != Source::Environment
        }),
{
    reveal_strlit("halo");
    reveal_strlit("binary");
    reveal_strlit("earth");
    reveal_strlit("calyx");
    reveal_strlit("saturn");
    reveal_strlit("solar");
    reveal_strlit("sol");
    assert("halo"@[0] == 'h' && "binary"@[0] == 'b' && "earth"@[0] == 'e' && "calyx"@[0] == 'c'
        && "saturn"@[0] == 's' && "solar"@[0] == 's' && "sol"@[0] == 's');
}

/// The first view goes to the body whose number the environment gives, if it is a
/// number and there is such a body; without a number it is the scene's own.
pub proof fn law_first_aims(setting: Option<Seq<char>>, bodies: nat, n: nat)
    requires
        n <= usize::MAX,
    ensures
        setting is None ==> first_aim_of(setting, bodies) == FirstAim::Default,
        setting == Some(crate::text::decimal(n)) && n < bodies ==> first_aim_of(setting, bodies)
            == FirstAim::Body(n as usize),
        setting == Some(crate::text::decimal(n)) && n >= bodies ==> first_aim_of(setting, bodies)
            == FirstAim::NoSuchBody(n as usize),
        setting is Some && !crate::text::all_digits(crate::text::unsigned_digits(setting->0))
            ==> first_aim_of(setting, bodies) == FirstAim::Default,
        first_aim_of(setting, bodies) matches FirstAim::Body(i) ==> i < bodies,
        first_aim_of(setting, bodies) matches FirstAim::NoSuchBody(i) ==> i >= bodies,
{
    crate::text::law_numerals(n);
    assert(crate::text::unsigned(crate::text::decimal(n), usize::MAX as nat) == Some(n));
}

/// What is said of a valid configuration gives the number of bodies, the host's name
/// and the target's, in that order.
pub proof fn law_valid_summary(scene: SceneView)
    ensures
        ({
            let line = summary_of(scene);
            let host = scene.bodies[scene.host as int].name;
            let target = scene.bodies[scene.default_target as int].name;
            let count = crate::text::decimal(scene.bodies.len());
            let a = count.len() as int;
            let b = host.len() as int;
            &&& line.len() == 14 + a + 19 + b + 13 + target.len()
            &&& line.subrange(14, 14 + a) == count
            &&& line.subrange(33 + a, 33 + a + b) == host
            &&& line.skip(46 + a + b) == target
        }),
{
    reveal_strlit("Valid system: ");
    reveal_strlit(" bodies; camera on ");
    reveal_strlit(", looking at ");
    let line = summary_of(scene);
    let host = scene.bodies[scene.host as int].name;
    let target = scene.bodies[scene.default_target as int].name;
    let count = crate::text::decimal(scene.bodies.len());
    let a = count.len() as int;
    let b = host.len() as int;
    assert(line.subrange(14, 14 + a) =~= count);
    assert(line.subrange(33 + a, 33 + a + b) =~= host);
    assert(line.skip(46 + a + b) =~= target);
}

/// One `--game` is enough to ask for the puzzle, wherever it stands, and nothing else
/// asks for it.
pub proof fn law_asking_for_the_puzzle(args: Seq<Argument>, i: int)
    ensures
        0 <= i < args.len() && args[i] is Some && args[i]->0@ == "--game"@ ==> wants_puzzle(args),
        (forall|j: int|
            0 <= j < args.len() ==> (#[trigger] args[j]) is None || args[j]->0@ != "--game"@)
            ==> !wants_puzzle(args),
{
    if 0 <= i < args.len() && args[i] is Some && args[i]->0@ == "--game"@ {
        assert(is_text(args[i], "--game"@));
    }
}

} // verus!
