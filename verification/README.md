# pacdef

A multi-backend declarative package manager for Linux. Packages are
declared in group files, one section per backend; `pacdef` installs the
declared packages that are missing, and shows, removes or reviews the
explicitly installed packages that no group declares.

## Layout

- `src/` is the library, written and proved with Verus:
  - `text`, `path`: characters, lines, words and paths, with their
    specifications;
  - `package`, `section`, `group`: group files read into sections and
    packages, group names, and group files written with new packages;
  - `order`: the order packages and names are sorted in;
  - `backend`: the package managers (the commands that install, remove and
    query packages, and how their output is read, JSON included), the
    managed packages of each backend, and which packages are missing or
    unmanaged;
  - `packages`, `groups`: group files read as the package sets of every
    backend at once;
  - `search`: the packages of all groups that a regular expression
    matches;
  - `review`, `commands`: the decisions behind the interactive review and
    the other commands, and the texts they show;
  - `action`, `args`, `config`, `errors`: subcommands, arguments,
    configuration and error messages.
- `tests/` runs the library on concrete values.
- `app/` is the program: the command line, the configuration file, reading
  the group directory, asking the package managers and running them, and the
  terminal interaction of the review.
