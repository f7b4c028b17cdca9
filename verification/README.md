# threadopt

Binds the threads of Android applications to CPUs by rules, and switches between a
power saving profile and one for games.

`src/` is the library. Everything in it is verified with Verus. What is taken on trust is
what the documentation of `core::fmt::Formatter::write_str` says, for printing a set of
CPUs:

| Module | What it holds |
|--------|---------------|
| `cpuset` | sets of CPUs, range strings, CPU lists and specifications, CPU set directories |
| `topology` | core tiers and the topology of a device |
| `config` | the grammar of configuration files, and loading them |
| `rule_match` | patterns for thread names, what a thread is bound to, kernel task names |
| `cache` | the threads that are bound |
| `mode`, `foreground` | profiles, and games in the foreground |
| `watch` | watching the configuration file |
| `apply_log`, `cli` | the log of bindings, command line arguments |
| `text`, `number` | reading and writing text and numbers |
| `*_laws` | what holds of these across functions |

`app/` is the service around the library: system calls, files, threads and the main
loop. It hands the library what it read and does what the library decides.

## Rules

```ini
# A package, and all of its threads
com.example.app=4-5

# Threads of a package
com.example.game {
    main_thread=0-3
    render_*=4-5
    worker_?=6
}

# The same in one line
com.example.app{heavy_thread}=6-7

# A rule for the package that opens a block as well
com.example.app=e-core,p-core {
    bg_thread=hp-core
}
```

CPUs are numbers, ranges, or the tiers `e-core`, `p-core`, `hp-core` and `all-core`,
with commas between them.
