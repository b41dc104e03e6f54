# Queso

Queso packages Gleam applications into single native executables. An executable holds a launcher,
an archive of the Erlang runtime, an archive of the compiled application, and metadata. On its
first run it unpacks both archives into a cache and starts the runtime; later runs reuse the cache.

The library in `src/` is verified with [Verus](https://github.com/verus-lang/verus). It has the
file format, the rules and the decisions; the program in `app/` has the files, processes, network
and terminal around it.

| Module       | What it has                                                                    |
| ------------ | ------------------------------------------------------------------------------ |
| `format`     | The trailer of an executable, its metadata, and what of it is acceptable       |
| `codec`      | Metadata as bytes                                                              |
| `image`      | Executables put together                                                       |
| `launcher`   | What an executable does when it is started                                     |
| `archive`    | Packing files, and where the entries of an archive go                          |
| `payload`    | The archives of runtime and application, and what they leave out               |
| `tree_shake` | Which applications of the runtime are needed                                   |
| `target`     | The machines that executables are built for                                    |
| `project`    | A project and its configuration                                                |
| `plan`       | What a build is to do                                                          |
| `builder`    | Tools, checks and places of a build, and how a launcher is come by             |
| `erts`       | Erlang runtimes: whether one is usable, and how one is come by                 |
| `erl`        | What is said to the Erlang helper process, and what its replies mean           |
| `strip`      | Which files are compiled modules                                               |
| `pack`       | The source of the launcher                                                     |
| `cli`        | The lines that a build shows                                                   |
| `digest`     | Hashes                                                                         |
| `paths`      | Paths: joining them and taking them apart                                      |
| `raw`        | Paths that are bytes                                                           |
| `order`      | Texts in ascending order                                                       |
| `text`       | Texts: splitting, trimming, replacing                                          |
| `bytes`      | Numbers as bytes                                                               |

The functions whose names begin with `law_` state what holds of the library as a whole: that what
was packed is unpacked, that what was written is read back, that nothing is placed outside its
directory.

What the library has from other crates stands behind functions marked
`#[verifier::external_body]`. Each says which function it calls and what is taken for granted of
it.

The program expects two files beside its executable: `sidecar.erl`, the script of the Erlang
helper process, and `launcher-source.tar.zst`, the source of the launcher, which
`queso pack-launcher` writes.
