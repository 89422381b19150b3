# qbuild

Builds OCI images from Dockerfiles, moves them to and from registries, and runs
containers from them.

- `src/` is the library: the Dockerfile grammar, stages and their steps, layers and
  their archives, the content store, registry exchanges, the devices and processes of
  containers, and the protocol of the guest daemon. Each function states what it
  returns, and the public proof functions state what holds across functions. Calls
  into other crates stand behind small functions whose doc comments say what is
  taken on trust.
- `app/` is the program: arguments, files, processes, sockets and HTTP around the
  library.
- `tests/` runs the library on concrete values.
