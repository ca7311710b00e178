# dockerit

Generates container files for the project in the current directory. For a Go
project, `dockerit generate dockerfile` (or `dockerit g dockerfile`) reads the
Go version from `go.mod` and writes a `Dockerfile` built on that version.

## Layout

- `src/` is the library, written in Verus, with each function's behaviour
  stated in its contract and proved:
  - `detection/project_type.rs`: which kind of project (Python, Go, C#) a walk
    of a directory shows, the directories a walk leaves out, and the laws of
    that classification.
  - `detection/dockerfile.rs`: the Go version a `go.mod` declares, and the
    Dockerfile built from it.
  - `detection/version.rs`: the search through version commands (`python`,
    `python3`, `py`; `go`; `dotnet`) as a step function, and how a command's
    output becomes a version.
  - `text.rs`: trimming, splitting and replacing, stated over characters.
  - `utils/cli.rs`: the commands the program takes.
- `app/` is the program: it parses the command line, walks the directory,
  reads files, runs commands and writes the Dockerfile, handing plain values
  to the library.
- `tests/` runs the library on concrete cases.
