//! Messages to the user, and where commands and recipes come from.
use vstd::prelude::*;
use crate::text::{chars_of, owned, push_str, string_of_range, views};
use crate::config::last_index_of;

verus! {

broadcast use vstd::string::group_string_axioms;

/// The kind of a message.
#[derive(Clone, Copy, Debug, PartialEq, Eq, Structural)]
pub enum OutputType {
    Info,
    Error,
    Debug,
    Fatal,
    Detail,
}

/// The colour a message is printed in.
#[derive(Clone, Copy, Debug, PartialEq, Eq, Structural)]
pub enum Color {
    Red,
    Green,
    Yellow,
}

/// A message as it is printed: its colour, its text, and whether the
/// program ends (with status 1) once it is printed.
pub struct Rendered {
    pub color: Color,
    pub text: String,
    pub exit: bool,
}

/// The colour of a kind of message: fatal messages and errors red,
/// information green, debugging yellow, everything else red.
pub open spec fn color_of(level: OutputType) -> Color {
    match level {
        OutputType::Info => Color::Green,
        OutputType::Debug => Color::Yellow,
        _ => Color::Red,
    }
}

/// How a message of the given kind is printed.
pub fn output(msg: String, level: OutputType) -> (r: Rendered)
    ensures
        r.text@ == msg@,
        r.color == color_of(level),
        r.exit == (level == OutputType::Fatal),
{
    let (color, exit) = match level {
        OutputType::Fatal => (Color::Red, true),
        OutputType::Info => (Color::Green, false),
        OutputType::Debug => (Color::Yellow, false),
        _ => (Color::Red, false),
    };
    Rendered { color, text: msg, exit }
}

/// How a message of the given kind is printed.
pub fn output_str(msg: &str, level: OutputType) -> (r: Rendered)
    ensures
        r.text@ == msg@,
        r.color == color_of(level),
        r.exit == (level == OutputType::Fatal),
{
    output(owned(msg), level)
}

/// Why no execution lines could be found.
#[derive(Clone, Copy, Debug, PartialEq, Eq, Structural)]
pub enum ExecutionLinesError {
    /// No candidate file of the recipe could be opened, or the first that
    /// could holds no line.
    RecipeMissing,
}

/// The fatal message for a missing recipe.
pub fn execution_lines_error_output(e: ExecutionLinesError) -> (r: Rendered)
    ensures
        r.text@ == "Did not found a recipe or recipe was empty"@,
        r.color == color_of(OutputType::Fatal),
        r.exit,
{
    match e {
        ExecutionLinesError::RecipeMissing => output_str(
            "Did not found a recipe or recipe was empty",
            OutputType::Fatal,
        ),
    }
}

/// The views of the lines read from each recipe candidate (`None` where the
/// file could not be opened).
pub open spec fn file_views(files: Seq<Option<Vec<String>>>) -> Seq<Option<Seq<Seq<char>>>> {
    files.map_values(
        |f: Option<Vec<String>>|
            match f {
                None => None,
                Some(v) => Some(views(v@)),
            },
    )
}

/// The lines of the first candidate file that could be opened.
pub open spec fn first_found(files: Seq<Option<Seq<Seq<char>>>>) -> Option<Seq<Seq<char>>>
    decreases files.len(),
{
    if files.len() == 0 {
        None
    } else if files[0] is Some {
        files[0]
    } else {
        first_found(files.drop_first())
    }
}

/// The places where a recipe is looked for, in order: the user's recipe
/// directory, the installation's recipe directory, and the name itself as a
/// path.
pub open spec fn recipe_candidates_spec(home: Seq<char>, install: Seq<char>, recipe: Seq<char>) -> Seq<
    Seq<char>,
> {
    seq![home + "/.hostctl/recipe/"@ + recipe, install + "/recipe/"@ + recipe, recipe]
}

/// What `get_execution_lines` gives for a command, a recipe and the lines
/// of the recipe's candidate files.
pub open spec fn execution_lines_spec(
    command: Seq<char>,
    recipe: Seq<char>,
    files: Seq<Option<Seq<Seq<char>>>>,
) -> Result<Seq<Seq<char>>, ExecutionLinesError> {
    if command.len() > 0 {
        Ok(seq![command.push('\n')])
    } else if recipe.len() > 0 {
        match first_found(files) {
            Some(lines) => if lines.len() > 0 {
                Ok(lines)
            } else {
                Err(ExecutionLinesError::RecipeMissing)
            },
            None => Err(ExecutionLinesError::RecipeMissing),
        }
    } else {
        Ok(Seq::empty())
    }
}

/// The paths where the recipe `recipe` is looked for.
pub fn recipe_candidates(home: &str, install: &str, recipe: &str) -> (r: Vec<String>)
    ensures
        views(r@) == recipe_candidates_spec(home@, install@, recipe@),
{
    let mut a = owned(home);
    push_str(&mut a, "/.hostctl/recipe/");
    push_str(&mut a, recipe);
    let mut b = owned(install);
    push_str(&mut b, "/recipe/");
    push_str(&mut b, recipe);
    let c = owned(recipe);
    let mut r: Vec<String> = Vec::new();
    r.push(a);
    r.push(b);
    r.push(c);
    assert(views(r@) =~= recipe_candidates_spec(home@, install@, recipe@));
    r
}

/// The lines to execute on each host: the command, with a line break, where
/// one is given; else the lines of the recipe from the first of its
/// candidate files (`recipe_files`, aligned with `recipe_candidates`) that
/// could be opened, which must hold at least one line; else none.
pub fn get_execution_lines(
    command: &String,
    recipe: &String,
    recipe_files: &Vec<Option<Vec<String>>>,
) -> (r: Result<Vec<String>, ExecutionLinesError>)
    ensures
        match (r, execution_lines_spec(command@, recipe@, file_views(recipe_files@))) {
            (Ok(lines), Ok(expected)) => views(lines@) == expected,
            (Err(e), Err(expected)) => e == expected,
            _ => false,
        },
{
    if command.as_str().unicode_len() > 0 {
        let mut line = owned(command.as_str());
        push_str(&mut line, "\n");
        let mut r: Vec<String> = Vec::new();
        r.push(line);
        proof { reveal_strlit("\n"); }
        assert("\n"@ =~= seq!['\n']);
        assert(r@[0]@ =~= command@.push('\n'));
        assert(views(r@) =~= seq![command@.push('\n')]);
        return Ok(r);
    }
    if recipe.as_str().unicode_len() == 0 {
        let r: Vec<String> = Vec::new();
        assert(views(r@) =~= Seq::<Seq<char>>::empty());
        return Ok(r);
    }
    let ghost fv = file_views(recipe_files@);
    let mut i: usize = 0;
    assert(fv.skip(0) =~= fv);
    while i < recipe_files.len()
        invariant
            fv == file_views(recipe_files@),
            command@.len() == 0,
            recipe@.len() > 0,
            i <= recipe_files@.len(),
            first_found(fv) == first_found(fv.skip(i as int)),
        decreases recipe_files@.len() - i,
    {
        proof {
            let t = fv.skip(i as int);
            assert(t[0] == fv[i as int]);
            assert(t.drop_first() =~= fv.skip(i + 1));
        }
        match &recipe_files[i] {
            Some(lines) => {
                assert(fv[i as int] == Some(views(lines@)));
                let mut r: Vec<String> = Vec::new();
                let mut k: usize = 0;
                while k < lines.len()
                    invariant
                        k <= lines@.len(),
                        views(r@) =~= views(lines@).take(k as int),
                    decreases lines@.len() - k,
                {
                    let line = owned(lines[k].as_str());
                    let ghost prev = r@;
                    r.push(line);
                    assert(views(r@) =~= views(prev).push(line@));
                    assert(views(lines@).take(k + 1) =~= views(lines@).take(k as int).push(lines@[k as int]@));
                    k = k + 1;
                }
                assert(views(lines@).take(lines@.len() as int) =~= views(lines@));
                if r.len() == 0 {
                    return Err(ExecutionLinesError::RecipeMissing);
                }
                return Ok(r);
            },
            None => {},
        }
        i = i + 1;
    }
    assert(fv.skip(i as int).len() == 0);
    Err(ExecutionLinesError::RecipeMissing)
}

/// The last component of a path: what follows its last `/`.
pub open spec fn base_name_spec(path: Seq<char>) -> Seq<char> {
    path.skip(last_index_of(path, '/') + 1)
}

/// The last component of a path.
pub fn base_name(path: &str) -> (r: String)
    ensures
        r@ == base_name_spec(path@),
{
    let v = chars_of(path);
    let mut e = v.len();
    assert(v@.take(v@.len() as int) == v@);
    while e > 0 && v[e - 1] != '/'
        invariant
            e <= v@.len(),
            v@ == path@,
            last_index_of(v@, '/') == last_index_of(v@.take(e as int), '/'),
        decreases e,
    {
        proof {
            let t = v@.take(e as int);
            assert(t.last() == v@[e - 1]);
            assert(t.drop_last() == v@.take(e - 1));
        }
        e = e - 1;
    }
    proof {
        assert(v@.take(v@.len() as int) == v@);
        if e > 0 {
            let t = v@.take(e as int);
            assert(t.last() == v@[e - 1]);
        }
        assert(v@.subrange(e as int, v@.len() as int) == v@.skip(e as int));
    }
    string_of_range(&v, e, v.len())
}

/// A row of the recipe table: the short name of a recipe and its full path.
pub struct RecipeRow {
    pub shortcut: String,
    pub full_path: String,
}

/// The rows of the recipe table for the files found in a recipe directory.
pub fn dump_recipe_dir(files: &Vec<String>) -> (r: Vec<RecipeRow>)
    ensures
        r@.len() == files@.len(),
        forall|i: int|
            0 <= i < files@.len() ==> r@[i].full_path@ == files@[i]@ && r@[i].shortcut@
                == base_name_spec(files@[i]@),
{
    let mut r: Vec<RecipeRow> = Vec::new();
    let mut i: usize = 0;
    while i < files.len()
        invariant
            i <= files@.len(),
            r@.len() == i,
            forall|j: int|
                0 <= j < i ==> r@[j].full_path@ == files@[j]@ && r@[j].shortcut@
                    == base_name_spec(files@[j]@),
        decreases files@.len() - i,
    {
        let shortcut = base_name(files[i].as_str());
        let full_path = owned(files[i].as_str());
        r.push(RecipeRow { shortcut, full_path });
        i = i + 1;
    }
    r
}

/// The title above the table of a recipe directory.
pub fn recipe_dir_title(dir: &str) -> (r: String)
    ensures
        r@ == "Directory: "@ + dir@,
{
    let mut r = owned("Directory: ");
    push_str(&mut r, dir);
    r
}

/// What listing the recipes shows: a heading, then the table of each
/// recipe directory in turn.
pub struct RecipeListing {
    pub heading: Rendered,
    pub dirs: Vec<String>,
}

/// The recipe directories, in order: the user's, then the installation's.
pub open spec fn recipe_dirs_spec(home: Seq<char>, install: Seq<char>) -> Seq<Seq<char>> {
    seq![home + "/.hostctl/recipe/"@, install + "/recipe/"@]
}

/// The listing of the available recipes.
pub fn dump_recipes(home: &str, install: &str) -> (r: RecipeListing)
    ensures
        r.heading.text@ == "\nAvailable recipes:\n"@,
        r.heading.color == Color::Green,
        !r.heading.exit,
        views(r.dirs@) == recipe_dirs_spec(home@, install@),
{
    let heading = output_str("\nAvailable recipes:\n", OutputType::Info);
    let mut a = owned(home);
    push_str(&mut a, "/.hostctl/recipe/");
    let mut b = owned(install);
    push_str(&mut b, "/recipe/");
    let mut dirs: Vec<String> = Vec::new();
    dirs.push(a);
    dirs.push(b);
    assert(views(dirs@) =~= recipe_dirs_spec(home@, install@));
    RecipeListing { heading, dirs }
}

/// The lines of the first candidate file that could be opened are those of
/// candidate `k` where every earlier one could not be opened.
proof fn lemma_first_found_at(files: Seq<Option<Seq<Seq<char>>>>, k: int)
    requires
        0 <= k < files.len(),
        files[k] is Some,
        forall|i: int| 0 <= i < k ==> files[i] is None,
    ensures
        first_found(files) == files[k],
    decreases k,
{
    if k > 0 {
        lemma_first_found_at(files.drop_first(), k - 1);
    }
}

/// Without a command, a recipe's lines are read from the first candidate
/// file that could be opened, the candidates before it aside: from the
/// user's recipe directory where the recipe is there. Where that file holds
/// no line, the recipe counts as missing, whatever later candidates hold.
pub proof fn lemma_first_openable_candidate(
    command: Seq<char>,
    recipe: Seq<char>,
    files: Seq<Option<Seq<Seq<char>>>>,
    k: int,
)
    requires
        command.len() == 0,
        recipe.len() > 0,
        0 <= k < files.len(),
        files[k] is Some,
        forall|i: int| 0 <= i < k ==> files[i] is None,
    ensures
        (files[k]->0).len() > 0 ==> execution_lines_spec(command, recipe, files) == Ok::<
            Seq<Seq<char>>,
            ExecutionLinesError,
        >(files[k]->0),
        (files[k]->0).len() == 0 ==> execution_lines_spec(command, recipe, files) == Err::<
            Seq<Seq<char>>,
            ExecutionLinesError,
        >(ExecutionLinesError::RecipeMissing),
{
    lemma_first_found_at(files, k);
}

/// A given command is executed alone, with a line break, whatever recipe
/// and files there are.
pub proof fn lemma_command_first(
    command: Seq<char>,
    recipe: Seq<char>,
    files: Seq<Option<Seq<Seq<char>>>>,
)
    requires
        command.len() > 0,
    ensures
        execution_lines_spec(command, recipe, files) == Ok::<Seq<Seq<char>>, ExecutionLinesError>(
            seq![command.push('\n')],
        ),
{
}

} // verus!
