# Debforge

Debforge converts a Debian binary package into an Arch Linux package. Its
command-line program is `debtap-rs`. The logic is a library in Verus: every
function states what it computes, and Verus proves it.

- `src/` is the verified library. It reads and writes nothing. Work that needs
  the host is a sequence of steps: a value such as `Conversion`, `PackageBuild`,
  `LayoutMerge`, `FileWalk`, `Installation`, `Staging` or `Transaction` says
  what to do next, and takes a reply.
- `app/` performs the steps: files, processes, the clock and the terminal.
- `tests/` runs the library on concrete values.

| Module | Content |
| --- | --- |
| `cli` | the command line |
| `control` | control files, versions and architectures |
| `dependency` | relations, the name map, version order and alternatives |
| `compatibility` | ELF files and what a payload needs |
| `transform` | the layout of the files, links, backups and the installed size |
| `archive` | archive members, file lists, `.MTREE`, gzip and package creation |
| `scripts` | the policy for maintainer scripts |
| `conversion` | the whole conversion, `.PKGINFO` and PKGBUILD |
| `installer` | review, consent, receipts and the default handler |
| `privileged` | the root helper |
| `process`, `workspace`, `digest` | tools, private directories, digests |
| `text`, `pieces`, `number`, `order`, `bytes`, `paths`, `lists`, `collection`, `attempts`, `encoding`, `error` | what the others rest on |

The public proof functions state what holds of several functions together, for
example that an existing package is not replaced unless it is asked for, that
only the reviewed package is staged, or that the notes of a conversion are read
back from its package.

Four items are taken from the standard library without proof: `String::push`,
`String::from_utf8_lossy`, `std::str::from_utf8` and the `Debug` form of a
string.
