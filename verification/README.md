# nocruft

Runs a shell, or any other program, and reports the paths that its process tree
created; on request it removes them again.

A BPF program writes a record for each creation, change of directory, fork and
exit. The library in `src/` makes sense of these records, and Verus proves that
it does what its contracts say:

| module | what it decides |
| --- | --- |
| `bpf_events` | how a record is laid out in bytes |
| `tracker` | what is known of each process, and how a record changes it |
| `pathres` | the path of an event, birth times and the clock |
| `hostpath` | paths as bytes: parts, joining, shortest form, order |
| `classify` | which paths are left out by default |
| `output` | which events are reported, and how |
| `delete` | what is removed, in what order, after which questions |
| `cli` | which arguments belong to nocruft and which to the child |
| `caps` | whether the process may load BPF programs |
| `text`, `order` | texts, numbers and orders that the others need |
| `outside` | what is taken for granted of std and of other crates |
| `laws` | what holds of the library as a whole |

`app/` is the program around it: it loads the BPF object, reads links and files,
asks the user and prints. `tests/` runs the library on concrete values.
