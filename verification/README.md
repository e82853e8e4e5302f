# krun_virtiofs

A Verus library that holds the decisions of a virtio-fs host: how the requests
of a Linux guest are answered from macOS directories, from masked mounts and
from virtual files, and how file system and block devices are configured.

Host calls are not made here. An operation on host files is a function of the
request and of the replies that the host has given so far: it names the next
call, or gives the answer. Whoever drives it starts without replies, makes each
call, appends its reply and asks again. What holds of every such run, whatever
the host replies, is proved in `passthrough/laws.rs` and beside the operations.

* `text`, `bytes`, `abi`: digits, byte strings, and numbers of the system
  interfaces.
* `sandbox_metadata`, `sandbox`: the record that holds a guest's owner, mode and
  file capability beside a host file, and how it is read and replaced.
* `override_stat`, `stat`, `attributes`: attributes as the guest sees them.
* `host`, `protocol`: host calls, replies and steps, and that every operation is
  answered with the last reply that it takes.
* `inodes`, `handles`, `opening`, `passthrough`: a served host directory.
* `mask_set`, `path_index`, `mask_fs`: masked paths over a lower file system.
* `virtual_fs`, `worker`, `block`, `fs_config`: virtual files, the device
  worker, and device configurations.

`app/` makes the host calls, moves guest memory and runs the worker thread.
