# flannel_rs

A flannel network for Kubernetes with verified logic: the daemon `flanneld` and
the CNI plugins `flannel`, `bridge`, `host-local` and `portmap`.

- `src/` is the library. It decides and does no input or output; every function
  is verified with Verus against its contract.
  - `text`, `number`, `ipv4`, `json`, `json_write`, `decode`, `text_map`: values
    and their texts.
  - `progress`, `netlink`: work that needs answers from outside, as functions of
    the answers so far.
  - `cni`: what the plugins share. `cni_flannel`, `cni_bridge`,
    `cni_host_local`, `cni_portmap`: the plugins.
  - `flanneld`: the daemon.
  - `chain`: laws across the daemon and the plugins.
- `app/` is the program: it asks the kernel, the disk, other programs and the
  cluster what the library wants to know. Its name decides which of the daemon
  and the plugins it is.
- `tests/` run the library against stand-ins for what is outside.

Functions named `law_` state what holds across functions.
