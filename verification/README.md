# store_client

Client for the modulix store daemon (`org.modulix.Daemon`), whose D-Bus replies
are `a{sv}` rows that the GNOME Software plugin reads as JSON.

- `src/` is the verified library (Verus):
  - `value.rs`: the D-Bus values of a row (`DbusValue`, `Dict`);
  - `json.rs`: a JSON value (`Json`) with its mathematical view (`JsonV`,
    objects as maps), object insertion and lookup;
  - `convert.rs`: rows and values to JSON, with the `screenshots` reshaping,
    and the laws of the conversion;
  - `store.rs`: what the C interface decides around each bus call (which
    names a batch request carries, the JSON document of each reply).
- `app/` is the unverified shell: the zbus proxies, the `mx_store_*` C ABI,
  and the moves between `zvariant`, the library's types and `serde_json`.
- `tests/` runs the library on concrete values.
