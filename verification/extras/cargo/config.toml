# The counters and the clock of the engine go round.

[profile.dev.package.kcp]
overflow-checks = false

[profile.test.package.kcp]
overflow-checks = false
