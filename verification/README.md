# vaultwarden-operator

A Kubernetes operator that syncs secrets from a Vaultwarden instance into native
Kubernetes `Secret` objects. Its logic is a Verus library: what each function
returns is stated in its contract and proved.

## Layout

```
src/
  config.rs        Settings from the environment
  controller.rs    Reconciler: requests, managed Secret, status conditions, requeue
  crd.rs           The VaultwardenSecret resource
  duration.rs      Duration strings
  health.rs        Answers to the liveness and readiness probes
  leader.rs        Leader election decisions
  outside.rs       Calls into cryptographic, encoding, clock and identifier crates
  string_map.rs    Ordered map with string keys
  text.rs          Character-level text operations
  vault/
    mod.rs         Session: cached vault, lookups, token and vault refresh
    auth.rs        Prelogin, password/API-key grants, token refresh
    crypto.rs      Cipher strings, AES-CBC+HMAC, PBKDF2/Argon2id, HKDF, RSA
    sync.rs        /api/sync model, vault decryption, item lookup
tests/             Tests of the library, with the outside crates linked
app/               The operator itself: HTTP, Kubernetes API, signals, JSON
```

`app/` performs what the library asks for: each of its loops hands the reply to
a request to the library and performs the step that comes back.

## What is proved

- A lookup scoped to a vault only ever returns an item of the one organization
  of that name; an exact name wins over a partial one; case does not matter.
- A fetch gives all values, in the order of the requests, or none.
- A Secret holds, under the key of each data entry, the secret of the item that
  the entry names, and is written only when every value is there.
- A refresh ends after a bounded number of steps; a refused token is renewed and
  retried once; a miss refreshes the cache only after the cooldown.
- Every cipher of a sync response is an item of the vault or counted as skipped.
- Status conditions stay one per type.
- A leader gives up exactly when another holds the lease or the renewals that
  failed in a row reach the threshold.

The functions marked `external_body` in `src/outside.rs` and `src/text.rs`, and
the two specifications of standard functions there, are trusted.
