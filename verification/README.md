# cloudid

An EC2/Afterburn-compatible metadata service for bare-metal hosts and
containers: it answers `169.254.169.254` with each host's identity (SSH keys
per login user, a cloud-config, Ignition and kickstart configs) resolved from
AMO identity data, BareMetalHost records and DHCP leases.

The logic is a Verus library, proved against its contracts:

- `resolve` — which access rules apply to a host, which users they grant, the
  keys per login user, the cloud-config and the metadata of hosts and
  containers.
- `resolution`, `access` — laws of resolution: one answer per state, the
  cache as the resolution of each address, and more access never taking a
  key away.
- `cache` — the service state, the metadata cache rebuilt from it, BMH and
  lease bookkeeping, oneshot and assignment state, IMDSv2 tokens.
- `ignition`, `user_merge`, `provision` — generated and merged Ignition and
  kickstart configs, template selection and rendering.
- `templates`, `config`, `model`, `imds`, `diag`, `netcfg`, `agent` — the
  template store's paths and records, configuration, data model, metadata
  listings, diagnostics, router/DHCP decisions and the host agent's helpers.
- `json`, `text`, `keyed`, `order` — JSON values and their pretty printing,
  text helpers, lists used as maps, and string ordering.

`app/` holds the program around it: the HTTP server, the NATS and mkube
watchers, the RouterOS and MicroDNS managers, the template store on disk and
the `cloudid-agent` command (chosen by the name the binary is started under).
